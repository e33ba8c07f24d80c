//! Carrying the content records of an instance over to its upgrade backup: each
//! content entry's file is found again in the backup by its path, and each dependency
//! edge is carried over between the backup's new entries.
use vstd::prelude::*;

use crate::error::{fs_error, ErrorKind};
use crate::text::{str_eq, to_owned_string};

verus! {

/// A content entry of the source instance: its id and the id of its file, if any.
#[derive(Clone, Debug)]
pub struct BackupEntryView {
    pub id: String,
    pub file_id: Option<String>,
}

/// The value paired with `key` in `pairs`: that of the last pair with it (as a map
/// collected from the pairs keeps it).
pub open spec fn lookup(pairs: Seq<(String, String)>, key: Seq<char>) -> Option<Seq<char>>
    decreases pairs.len(),
{
    if pairs.len() == 0 {
        None
    } else if pairs.last().0@ == key {
        Some(pairs.last().1@)
    } else {
        lookup(pairs.drop_last(), key)
    }
}

/// The pairs with their two sides swapped.
pub open spec fn swapped(pairs: Seq<(String, String)>) -> Seq<(String, String)> {
    pairs.map_values(|p: (String, String)| (p.1, p.0))
}

/// The backup file of one entry: `Ok(None)` for an entry without a file, the id of the
/// backup file at the same path, or the error that stops the copy. `source_files` and
/// `target_files` are pairs of file id and path.
pub open spec fn entry_target_file(
    source_files: Seq<(String, String)>,
    target_files: Seq<(String, String)>,
    entry: BackupEntryView,
) -> Result<Option<Seq<char>>, Seq<char>> {
    match entry.file_id {
        None => Ok(None),
        Some(file_id) => match lookup(source_files, file_id@) {
            None => Err("Upgrade backup source content entry "@ + entry.id@ + " has no file"@),
            Some(path) => match lookup(swapped(target_files), path) {
                None => Err("Upgrade backup is missing copied content file "@ + path),
                Some(id) => Ok(Some(id)),
            },
        },
    }
}

/// The backup files of the entries in order, or the first entry's error.
pub open spec fn entry_target_files(
    source_files: Seq<(String, String)>,
    target_files: Seq<(String, String)>,
    entries: Seq<BackupEntryView>,
) -> Result<Seq<Option<Seq<char>>>, Seq<char>>
    decreases entries.len(),
{
    if entries.len() == 0 {
        Ok(Seq::empty())
    } else {
        match entry_target_files(source_files, target_files, entries.drop_last()) {
            Err(e) => Err(e),
            Ok(done) => match entry_target_file(source_files, target_files, entries.last()) {
                Err(e) => Err(e),
                Ok(f) => Ok(done.push(f)),
            },
        }
    }
}

/// One edge (parent, child) carried over through the map from source entry ids to
/// backup entry ids, or the error that stops the copy.
pub open spec fn edge_target(entry_ids: Seq<(String, String)>, edge: (String, String)) -> Result<
    (Seq<char>, Seq<char>),
    Seq<char>,
> {
    match lookup(entry_ids, edge.0@) {
        None => Err("Upgrade backup cannot map dependency parent "@ + edge.0@),
        Some(parent) => match lookup(entry_ids, edge.1@) {
            None => Err("Upgrade backup cannot map dependency child "@ + edge.1@),
            Some(child) => Ok((parent, child)),
        },
    }
}

/// The edges carried over in order, or the first edge's error.
pub open spec fn edge_targets(entry_ids: Seq<(String, String)>, edges: Seq<(String, String)>) -> Result<
    Seq<(Seq<char>, Seq<char>)>,
    Seq<char>,
>
    decreases edges.len(),
{
    if edges.len() == 0 {
        Ok(Seq::empty())
    } else {
        match edge_targets(entry_ids, edges.drop_last()) {
            Err(e) => Err(e),
            Ok(done) => match edge_target(entry_ids, edges.last()) {
                Err(e) => Err(e),
                Ok(p) => Ok(done.push(p)),
            },
        }
    }
}

/// The value of `key` in `pairs`, or its key, when `by_second` (pairs read backwards).
fn find_pair(pairs: &Vec<(String, String)>, key: &str, by_second: bool) -> (r: Option<String>)
    ensures
        match lookup(if by_second { swapped(pairs@) } else { pairs@ }, key@) {
            Some(v) => r matches Some(x) && x@ == v,
            None => r is None,
        },
{
    let ghost ps = if by_second { swapped(pairs@) } else { pairs@ };
    let mut j = pairs.len();
    assert(ps.take(j as int) =~= ps);
    while j > 0
        invariant
            j <= pairs.len(),
            ps == if by_second { swapped(pairs@) } else { pairs@ },
            lookup(ps, key@) == lookup(ps.take(j as int), key@),
        decreases j,
    {
        assert(ps.take(j as int).drop_last() =~= ps.take(j - 1));
        assert(ps.take(j as int).last() == ps[j - 1]);
        let pair = &pairs[j - 1];
        let (k, v) = if by_second {
            (&pair.1, &pair.0)
        } else {
            (&pair.0, &pair.1)
        };
        if str_eq(k.as_str(), key) {
            return Some(to_owned_string(v.as_str()));
        }
        j = j - 1;
    }
    None
}

/// `a` followed by `b`.
fn joined2(a: &str, b: &str) -> (r: String)
    ensures
        r@ == a@ + b@,
{
    let mut r = to_owned_string(a);
    r.append(b);
    r
}

/// `a`, `b` and `c` one after another.
fn joined3(a: &str, b: &str, c: &str) -> (r: String)
    ensures
        r@ == a@ + b@ + c@,
{
    let mut r = to_owned_string(a);
    r.append(b);
    r.append(c);
    r
}

/// Finds, for each content entry of an instance, the file of its upgrade backup that
/// holds the same path (files are pairs of id and path). An entry whose file the source
/// does not list, or whose path the backup lacks, stops the copy with a file-system
/// error naming it.
pub fn remap_backup_files(
    source_files: &Vec<(String, String)>,
    target_files: &Vec<(String, String)>,
    entries: &Vec<BackupEntryView>,
) -> (r: Result<Vec<Option<String>>, ErrorKind>)
    ensures
        match entry_target_files(source_files@, target_files@, entries@) {
            Ok(files) => r matches Ok(v) && v@.map_values(|o: Option<String>| match o {
                Some(s) => Some(s@),
                None => None,
            }) == files,
            Err(m) => r matches Err(e) && e matches ErrorKind::FSError(msg) && msg@ == m,
        },
{
    let mut out: Vec<Option<String>> = Vec::new();
    let mut i: usize = 0;
    while i < entries.len()
        invariant
            i <= entries.len(),
            entry_target_files(source_files@, target_files@, entries@.take(i as int)) matches Ok(files)
                && out@.map_values(|o: Option<String>| match o {
                Some(s) => Some(s@),
                None => None,
            }) == files,
        decreases entries.len() - i,
    {
        assert(entries@.take(i + 1).drop_last() =~= entries@.take(i as int));
        assert(entries@.take(i + 1).last() == entries@[i as int]);
        let ghost before = out@;
        let entry = &entries[i];
        let target = match &entry.file_id {
            None => None,
            Some(file_id) => match find_pair(source_files, file_id.as_str(), false) {
                None => {
                    let msg = joined3("Upgrade backup source content entry ", entry.id.as_str(), " has no file");
                    proof {
                        lemma_prefix_error(source_files@, target_files@, entries@, i as int);
                    }
                    return Err(fs_error(msg));
                },
                Some(path) => match find_pair(target_files, path.as_str(), true) {
                    None => {
                        let msg = joined2("Upgrade backup is missing copied content file ", path.as_str());
                        proof {
                            assert(msg@ == "Upgrade backup is missing copied content file "@ + path@);
                            lemma_prefix_error(source_files@, target_files@, entries@, i as int);
                        }
                        return Err(fs_error(msg));
                    },
                    Some(id) => Some(id),
                },
            },
        };
        out.push(target);
        proof {
            assert(out@.map_values(|o: Option<String>| match o {
                Some(s) => Some(s@),
                None => None,
            }) =~= before.map_values(|o: Option<String>| match o {
                Some(s) => Some(s@),
                None => None,
            }).push(match target {
                Some(s) => Some(s@),
                None => None,
            }));
        }
        i = i + 1;
    }
    assert(entries@.take(i as int) =~= entries@);
    Ok(out)
}

/// An error at entry `i`, after the entries before it mapped, is the error of all.
proof fn lemma_prefix_error(
    source_files: Seq<(String, String)>,
    target_files: Seq<(String, String)>,
    entries: Seq<BackupEntryView>,
    i: int,
)
    requires
        0 <= i < entries.len(),
        entry_target_files(source_files, target_files, entries.take(i)) is Ok,
        entry_target_file(source_files, target_files, entries[i]) is Err,
    ensures
        entry_target_files(source_files, target_files, entries) == Err::<Seq<Option<Seq<char>>>, Seq<char>>(
            entry_target_file(source_files, target_files, entries[i])->Err_0,
        ),
    decreases entries.len() - i,
{
    assert(entries.take(i + 1).drop_last() =~= entries.take(i));
    assert(entries.take(i + 1).last() == entries[i]);
    lemma_error_stays(source_files, target_files, entries, i + 1);
}

/// Once a prefix of the entries fails, the whole fails with the same error.
proof fn lemma_error_stays(
    source_files: Seq<(String, String)>,
    target_files: Seq<(String, String)>,
    entries: Seq<BackupEntryView>,
    n: int,
)
    requires
        0 <= n <= entries.len(),
        entry_target_files(source_files, target_files, entries.take(n)) is Err,
    ensures
        entry_target_files(source_files, target_files, entries) == entry_target_files(
            source_files,
            target_files,
            entries.take(n),
        ),
    decreases entries.len() - n,
{
    if n < entries.len() {
        assert(entries.take(n + 1).drop_last() =~= entries.take(n));
        lemma_error_stays(source_files, target_files, entries, n + 1);
    } else {
        assert(entries.take(n) =~= entries);
    }
}

/// Once a prefix of the edges fails, the whole fails with the same error.
proof fn lemma_edge_error_stays(entry_ids: Seq<(String, String)>, edges: Seq<(String, String)>, n: int)
    requires
        0 <= n <= edges.len(),
        edge_targets(entry_ids, edges.take(n)) is Err,
    ensures
        edge_targets(entry_ids, edges) == edge_targets(entry_ids, edges.take(n)),
    decreases edges.len() - n,
{
    if n < edges.len() {
        assert(edges.take(n + 1).drop_last() =~= edges.take(n));
        lemma_edge_error_stays(entry_ids, edges, n + 1);
    } else {
        assert(edges.take(n) =~= edges);
    }
}

/// Carries the dependency edges (parent, child) of an instance over to its upgrade
/// backup through the map from source entry ids to backup entry ids (pairs). An edge
/// whose parent, or else whose child, has no backup entry stops the copy with a
/// file-system error naming it.
pub fn remap_backup_edges(entry_ids: &Vec<(String, String)>, edges: &Vec<(String, String)>) -> (r: Result<
    Vec<(String, String)>,
    ErrorKind,
>)
    ensures
        match edge_targets(entry_ids@, edges@) {
            Ok(mapped) => r matches Ok(v) && v@.map_values(|p: (String, String)| (p.0@, p.1@)) == mapped,
            Err(m) => r matches Err(e) && e matches ErrorKind::FSError(msg) && msg@ == m,
        },
{
    let mut out: Vec<(String, String)> = Vec::new();
    let mut i: usize = 0;
    while i < edges.len()
        invariant
            i <= edges.len(),
            edge_targets(entry_ids@, edges@.take(i as int)) matches Ok(mapped) && out@.map_values(
                |p: (String, String)| (p.0@, p.1@),
            ) == mapped,
        decreases edges.len() - i,
    {
        assert(edges@.take(i + 1).drop_last() =~= edges@.take(i as int));
        assert(edges@.take(i + 1).last() == edges@[i as int]);
        let ghost before = out@;
        let edge = &edges[i];
        let parent = match find_pair(entry_ids, edge.0.as_str(), false) {
            Some(p) => p,
            None => {
                let msg = joined2("Upgrade backup cannot map dependency parent ", edge.0.as_str());
                proof {
                    assert(msg@ == "Upgrade backup cannot map dependency parent "@ + edge.0@);
                    lemma_edge_error_stays(entry_ids@, edges@, i + 1);
                }
                return Err(fs_error(msg));
            },
        };
        let child = match find_pair(entry_ids, edge.1.as_str(), false) {
            Some(c) => c,
            None => {
                let msg = joined2("Upgrade backup cannot map dependency child ", edge.1.as_str());
                proof {
                    assert(msg@ == "Upgrade backup cannot map dependency child "@ + edge.1@);
                    lemma_edge_error_stays(entry_ids@, edges@, i + 1);
                }
                return Err(fs_error(msg));
            },
        };
        out.push((parent, child));
        proof {
            assert(out@.map_values(|p: (String, String)| (p.0@, p.1@)) =~= before.map_values(
                |p: (String, String)| (p.0@, p.1@),
            ).push((parent@, child@)));
        }
        i = i + 1;
    }
    assert(edges@.take(i as int) =~= edges@);
    Ok(out)
}

} // verus!
