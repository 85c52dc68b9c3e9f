use vstd::prelude::*;

use crate::model::library::{index_views, kept_indices};
use crate::model::manifest::MediaFolder;
use crate::text::{contains_str, str_eq, views};

verus! {

/// The last folder in `fs[..n]` whose id is `id` (later folders shadow earlier
/// ones with the same id).
pub open spec fn lookup_in(fs: Seq<MediaFolder>, id: Seq<char>, n: int) -> Option<int>
    decreases n,
{
    if n <= 0 || n > fs.len() {
        None
    } else if fs[n - 1].id@ == id {
        Some(n - 1)
    } else {
        lookup_in(fs, id, n - 1)
    }
}

/// The folder (by index) that the id `id` names.
pub open spec fn lookup(fs: Seq<MediaFolder>, id: Seq<char>) -> Option<int> {
    lookup_in(fs, id, fs.len() as int)
}

/// The parent id of the folder named `id`; `None` for a top-level or unknown folder.
pub open spec fn parent_of(fs: Seq<MediaFolder>, id: Seq<char>) -> Option<Seq<char>> {
    match lookup(fs, id) {
        Some(i) => match fs[i].parent_id {
            Some(p) => Some(p@),
            None => None,
        },
        None => None,
    }
}

/// The id reached after climbing `k` parent links from `start`.
pub open spec fn chain(fs: Seq<MediaFolder>, start: Seq<char>, k: nat) -> Option<Seq<char>>
    decreases k,
{
    if k == 0 {
        Some(start)
    } else {
        match chain(fs, start, (k - 1) as nat) {
            Some(x) => parent_of(fs, x),
            None => None,
        }
    }
}

/// `folder_id` is `ancestor_id` itself or lies below it: climbing parent links
/// from `folder_id` reaches `ancestor_id`.
pub open spec fn spec_is_descendant(fs: Seq<MediaFolder>, folder_id: Seq<char>, ancestor_id: Seq<char>) -> bool {
    exists|k: nat| chain(fs, folder_id, k) == Some(ancestor_id)
}

/// Every id a parent walk from `start` can visit: `start` itself, and the
/// parent ids the folders name.
pub open spec fn walk_candidates(fs: Seq<MediaFolder>, start: Seq<char>) -> Seq<Seq<char>> {
    seq![start] + fs.map_values(
        |f: MediaFolder|
            match f.parent_id {
                Some(p) => p@,
                None => start,
            },
    )
}

proof fn lemma_lookup_in(fs: Seq<MediaFolder>, id: Seq<char>, n: int)
    requires
        0 <= n <= fs.len(),
    ensures
        lookup_in(fs, id, n) matches Some(i) ==> 0 <= i < n && fs[i].id@ == id,
        lookup_in(fs, id, n) is None ==> forall|j: int| 0 <= j < n ==> fs[j].id@ != id,
    decreases n,
{
    if n > 0 && fs[n - 1].id@ != id {
        lemma_lookup_in(fs, id, n - 1);
    }
}

proof fn lemma_chain_candidate(fs: Seq<MediaFolder>, start: Seq<char>, k: nat)
    requires
        chain(fs, start, k) is Some,
    ensures
        walk_candidates(fs, start).contains(chain(fs, start, k)->0),
{
    let c = walk_candidates(fs, start);
    if k == 0 {
        assert(c[0] == start);
    } else {
        let x = chain(fs, start, (k - 1) as nat)->0;
        lemma_lookup_in(fs, x, fs.len() as int);
        let i = lookup(fs, x)->0;
        assert(c[i + 1] == chain(fs, start, k)->0);
    }
}

proof fn lemma_chain_shift(fs: Seq<MediaFolder>, start: Seq<char>, j: nat, i: nat, k: nat)
    requires
        chain(fs, start, j) == chain(fs, start, i),
    ensures
        chain(fs, start, j + k) == chain(fs, start, i + k),
    decreases k,
{
    if k > 0 {
        lemma_chain_shift(fs, start, j, i, (k - 1) as nat);
        assert(chain(fs, start, j + k) == match chain(fs, start, (j + k - 1) as nat) {
            Some(x) => parent_of(fs, x),
            None => None,
        });
        assert(chain(fs, start, i + k) == match chain(fs, start, (i + k - 1) as nat) {
            Some(x) => parent_of(fs, x),
            None => None,
        });
    }
}

/// Once the walk revisits an id it cycles: every later step repeats an earlier one.
proof fn lemma_chain_cycle(fs: Seq<MediaFolder>, start: Seq<char>, j: nat, i: nat, k: nat) -> (m: nat)
    requires
        j < i,
        j <= k,
        chain(fs, start, j) == chain(fs, start, i),
    ensures
        j <= m < i,
        chain(fs, start, k) == chain(fs, start, m),
    decreases k,
{
    if k < i {
        k
    } else {
        let p = (i - j) as nat;
        let k2 = (k - p) as nat;
        lemma_chain_shift(fs, start, j, i, (k - i) as nat);
        assert(j + (k - i) == k2);
        lemma_chain_cycle(fs, start, j, i, k2)
    }
}

/// Once the walk ends (no parent, or an unknown id) it stays ended.
proof fn lemma_chain_ended(fs: Seq<MediaFolder>, start: Seq<char>, i: nat, k: nat)
    requires
        chain(fs, start, i) is None,
        i <= k,
    ensures
        chain(fs, start, k) is None,
    decreases k,
{
    if k > i {
        lemma_chain_ended(fs, start, i, (k - 1) as nat);
    }
}

/// A distinct sequence of candidate ids is no longer than the candidate list.
proof fn lemma_distinct_bounded(v: Seq<Seq<char>>, c: Seq<Seq<char>>)
    requires
        v.no_duplicates(),
        forall|t: int| 0 <= t < v.len() ==> c.contains(#[trigger] v[t]),
    ensures
        v.len() <= c.len(),
{
    v.unique_seq_to_set();
    c.lemma_cardinality_of_set();
    assert(v.to_set().subset_of(c.to_set())) by {
        assert forall|x: Seq<char>| v.to_set().contains(x) implies c.to_set().contains(x) by {
            let t = choose|t: int| 0 <= t < v.len() && v[t] == x;
        }
    }
    vstd::set_lib::lemma_len_subset(v.to_set(), c.to_set());
}

/// The walk from `start` stops at step `m`: no id there, an id naming no
/// folder, or an id already visited.
pub open spec fn walk_stops(fs: Seq<MediaFolder>, start: Seq<char>, m: nat) -> bool {
    ||| chain(fs, start, m) is None
    ||| lookup(fs, chain(fs, start, m)->0) is None
    ||| exists|j: nat| j < m && chain(fs, start, j) == chain(fs, start, m)
}

/// The folders of a sequence of folder references.
pub open spec fn derefs(s: Seq<&MediaFolder>) -> Seq<MediaFolder> {
    s.map_values(|f: &MediaFolder| *f)
}

/// `p` is the root-first path to `start`: the folders named by the walk's first
/// `p.len()` ids (which are distinct), in reverse, with the walk stopping there.
pub open spec fn is_walk_path(fs: Seq<MediaFolder>, start: Seq<char>, p: Seq<MediaFolder>) -> bool {
    &&& forall|j: nat| j < p.len() ==> #[trigger] chain(fs, start, j) is Some && lookup(fs, chain(fs, start, j)->0) is Some
        && p[p.len() - 1 - j] == fs[lookup(fs, chain(fs, start, j)->0)->0]
    &&& forall|j1: nat, j2: nat| j1 < j2 < p.len() ==> #[trigger] chain(fs, start, j1) != #[trigger] chain(fs, start, j2)
    &&& walk_stops(fs, start, p.len())
}

/// The ids reachable from `ids` by going down at most `k` child links (a folder
/// whose parent id is in the set joins it).
pub open spec fn descendants_within(fs: Seq<MediaFolder>, ids: Set<Seq<char>>, k: nat) -> Set<Seq<char>>
    decreases k,
{
    if k == 0 {
        ids
    } else {
        let prev = descendants_within(fs, ids, (k - 1) as nat);
        prev.union(Set::new(|x: Seq<char>| exists|c: int| 0 <= c < fs.len() && fs[c].id@ == x
            && child_of_set(fs[c], prev)))
    }
}

/// Folder `f` has a parent id in `s`.
pub open spec fn child_of_set(f: MediaFolder, s: Set<Seq<char>>) -> bool {
    match f.parent_id {
        Some(p) => s.contains(p@),
        None => false,
    }
}

/// `ids` together with every folder id below any of them.
pub open spec fn spec_with_descendants(fs: Seq<MediaFolder>, ids: Set<Seq<char>>) -> Set<Seq<char>> {
    Set::new(|x: Seq<char>| exists|k: nat| #[trigger] descendants_within(fs, ids, k).contains(x))
}

/// A set of ids that holds `ids` and every child of each member holds every
/// id within `k` child links of `ids`.
proof fn lemma_closed_contains_descendants(fs: Seq<MediaFolder>, ids: Set<Seq<char>>, all: Seq<Seq<char>>, k: nat)
    requires
        forall|x: Seq<char>| ids.contains(x) ==> all.contains(x),
        forall|t: int, c: int| 0 <= t < all.len() && 0 <= c < fs.len() && #[trigger] child_of_set(fs[c], set![all[t]]) ==> all.contains(#[trigger] fs[c].id@),
    ensures
        forall|x: Seq<char>| descendants_within(fs, ids, k).contains(x) ==> all.contains(x),
    decreases k,
{
    if k > 0 {
        lemma_closed_contains_descendants(fs, ids, all, (k - 1) as nat);
        let prev = descendants_within(fs, ids, (k - 1) as nat);
        assert forall|x: Seq<char>| descendants_within(fs, ids, k).contains(x) implies all.contains(x) by {
            if !prev.contains(x) {
                let c = choose|c: int| 0 <= c < fs.len() && fs[c].id@ == x && child_of_set(fs[c], prev);
                let p = fs[c].parent_id->0@;
                assert(all.contains(p));
                let t = choose|t: int| 0 <= t < all.len() && all[t] == p;
                assert(child_of_set(fs[c], set![all[t]]));
            }
        }
    }
}

/// Climbing `k + 1` links from `start` is climbing `k` links from its parent.
proof fn lemma_chain_tail(fs: Seq<MediaFolder>, start: Seq<char>, k: nat)
    requires
        parent_of(fs, start) is Some,
    ensures
        chain(fs, start, k + 1) == chain(fs, parent_of(fs, start)->0, k),
    decreases k,
{
    let g = parent_of(fs, start)->0;
    assert(chain(fs, start, 0) == Some(start));
    assert(chain(fs, start, 1) == parent_of(fs, start));
    if k > 0 {
        lemma_chain_tail(fs, start, (k - 1) as nat);
        assert(chain(fs, start, k + 1) == match chain(fs, start, k) {
            Some(x) => parent_of(fs, x),
            None => None,
        });
        assert(chain(fs, g, k) == match chain(fs, g, (k - 1) as nat) {
            Some(x) => parent_of(fs, x),
            None => None,
        });
    }
}

/// Every folder on the path to `start` is an ancestor of `start` (or `start`
/// itself), and `start` is a descendant of itself.
pub proof fn law_path_folders_are_ancestors(fs: Seq<MediaFolder>, start: Seq<char>, p: Seq<MediaFolder>, t: int)
    requires
        is_walk_path(fs, start, p),
        0 <= t < p.len(),
    ensures
        spec_is_descendant(fs, start, p[t].id@),
        spec_is_descendant(fs, start, start),
{
    let j = (p.len() - 1 - t) as nat;
    assert(chain(fs, start, j) is Some);
    let x = chain(fs, start, j)->0;
    lemma_lookup_in(fs, x, fs.len() as int);
    assert(chain(fs, start, 0) == Some(start));
}

/// Collecting descendants is downward-closed along parent walks: when the walk
/// up from `f` reaches an id in `ids`, then `f` is among `ids` and their
/// descendants. Deleting a set of folders with their descendants therefore
/// removes every folder that lies below one of them.
pub proof fn law_descendants_cover_walks(fs: Seq<MediaFolder>, ids: Set<Seq<char>>, f: Seq<char>, k: nat)
    requires
        chain(fs, f, k) matches Some(a) && ids.contains(a),
    ensures
        spec_with_descendants(fs, ids).contains(f),
    decreases k,
{
    if k == 0 {
        assert(descendants_within(fs, ids, 0).contains(f));
    } else {
        assert(chain(fs, f, 1) is Some) by {
            if chain(fs, f, 1) is None {
                lemma_chain_ended(fs, f, 1, k);
            }
        }
        assert(chain(fs, f, 0) == Some(f));
        assert(chain(fs, f, 1) == parent_of(fs, f));
        let g = parent_of(fs, f)->0;
        lemma_chain_tail(fs, f, (k - 1) as nat);
        law_descendants_cover_walks(fs, ids, g, (k - 1) as nat);
        let m: nat = choose|m: nat| descendants_within(fs, ids, m).contains(g);
        lemma_lookup_in(fs, f, fs.len() as int);
        let c = lookup(fs, f)->0;
        assert(fs[c].parent_id->0@ == g);
        assert(child_of_set(fs[c], descendants_within(fs, ids, m)));
        assert(descendants_within(fs, ids, m + 1).contains(f));
    }
}

/// Lookup tables over a folder list: by-id lookup (a later folder shadows an
/// earlier one with the same id), parent walks and descendant collection.
pub struct MediaFolderIndex<'a> {
    folders: &'a [MediaFolder],
}

impl<'a> MediaFolderIndex<'a> {
    /// The indexed folder list.
    pub closed spec fn spec_folders(&self) -> Seq<MediaFolder> {
        self.folders@
    }

    /// Index `folders`.
    pub fn new(folders: &'a [MediaFolder]) -> (r: Self)
        ensures
            r.spec_folders() == folders@,
    {
        MediaFolderIndex { folders }
    }

    fn lookup_index(&self, id: &str) -> (r: Option<usize>)
        ensures
            r matches Some(i) ==> lookup(self.spec_folders(), id@) == Some(i as int),
            r is None ==> lookup(self.spec_folders(), id@) is None,
            r matches Some(i) ==> i < self.spec_folders().len(),
    {
        let ghost fs = self.folders@;
        proof {
            lemma_lookup_in(fs, id@, fs.len() as int);
        }
        let mut i: usize = self.folders.len();
        while i > 0
            invariant
                i <= fs.len(),
                fs == self.folders@,
                lookup(fs, id@) == lookup_in(fs, id@, i as int),
            decreases i,
        {
            if str_eq(self.folders[i - 1].id.as_str(), id) {
                return Some(i - 1);
            }
            i = i - 1;
        }
        None
    }

    /// The folder with `id` (the last one, if several share it).
    pub fn folder(&self, id: &str) -> (r: Option<&'a MediaFolder>)
        ensures
            r is Some <==> lookup(self.spec_folders(), id@) is Some,
            r is Some ==> *r->0 == self.spec_folders()[lookup(self.spec_folders(), id@)->0],
    {
        match self.lookup_index(id) {
            Some(i) => Some(&self.folders[i]),
            None => None,
        }
    }

    fn parent(&self, id: &str) -> (r: Option<String>)
        ensures
            r matches Some(p) ==> parent_of(self.spec_folders(), id@) == Some(p@),
            r is None ==> parent_of(self.spec_folders(), id@) is None,
    {
        match self.lookup_index(id) {
            Some(i) => match &self.folders[i].parent_id {
                Some(p) => Some(p.clone()),
                None => None,
            },
            None => None,
        }
    }

    /// Whether `folder_id` is `ancestor_id` itself or a descendant of it. The walk
    /// up the parent links stops at the top, at an unknown id, or on a cycle.
    pub fn is_descendant(&self, folder_id: &str, ancestor_id: &str) -> (r: bool)
        ensures
            r == spec_is_descendant(self.spec_folders(), folder_id@, ancestor_id@),
    {
        let ghost fs = self.folders@;
        let ghost start = folder_id@;
        let ghost cand = walk_candidates(fs, start);
        let mut current: Option<String> = Some(String::from_str(folder_id));
        let mut visited: Vec<String> = Vec::new();
        let ghost mut i: nat = 0;
        loop
            invariant
                fs == self.folders@,
                start == folder_id@,
                cand == walk_candidates(fs, start),
                visited@.len() == i,
                current matches Some(c) ==> chain(fs, start, i) == Some(c@),
                current is None ==> chain(fs, start, i) is None,
                forall|j: int| 0 <= j < i ==> chain(fs, start, j as nat) == Some(#[trigger] views(visited@)[j]),
                views(visited@).no_duplicates(),
                forall|j: int| 0 <= j < i ==> #[trigger] views(visited@)[j] != ancestor_id@,
                forall|t: int| 0 <= t < i ==> cand.contains(#[trigger] views(visited@)[t]),
            decreases cand.len() + 1 - visited@.len(),
        {
            proof {
                lemma_distinct_bounded(views(visited@), cand);
            }
            match current {
                None => {
                    assert forall|k: nat| chain(fs, start, k) != Some(ancestor_id@) by {
                        if k >= i {
                            lemma_chain_ended(fs, start, i, k);
                        } else {
                            assert(chain(fs, start, k) == Some(views(visited@)[k as int]));
                        }
                    }
                    assert(!spec_is_descendant(fs, start, ancestor_id@));
                    return false;
                },
                Some(id) => {
                    if contains_str(&visited, id.as_str()) {
                        proof {
                            let j = choose|j: int| 0 <= j < views(visited@).len() && views(visited@)[j] == id@;
                            assert forall|k: nat| chain(fs, start, k) != Some(ancestor_id@) by {
                                if k >= i {
                                    let m = lemma_chain_cycle(fs, start, j as nat, i, k);
                                    assert(chain(fs, start, m) == Some(views(visited@)[m as int]));
                                } else {
                                    assert(chain(fs, start, k) == Some(views(visited@)[k as int]));
                                }
                            }
                            assert(!spec_is_descendant(fs, start, ancestor_id@));
                        }
                        return false;
                    }
                    proof {
                        lemma_chain_candidate(fs, start, i);
                    }
                    let ghost before = views(visited@);
                    visited.push(id.clone());
                    proof {
                        assert(views(visited@) =~= before.push(id@));
                    }
                    if str_eq(id.as_str(), ancestor_id) {
                        assert(chain(fs, start, i) == Some(ancestor_id@));
                        return true;
                    }
                    current = self.parent(id.as_str());
                    proof {
                        i = i + 1;
                    }
                },
            }
        }
    }

    /// The root-first path of folders ending at `folder_id`; empty for `None` or
    /// an unknown id. The walk stops at a repeated id, so a corrupt cycle ends.
    pub fn path(&self, folder_id: Option<&str>) -> (r: Vec<&'a MediaFolder>)
        ensures
            folder_id is None ==> r@.len() == 0,
            folder_id matches Some(id) ==> is_walk_path(self.spec_folders(), id@, derefs(r@)),
    {
        let mut out: Vec<&'a MediaFolder> = Vec::new();
        let start_id = match folder_id {
            None => return out,
            Some(id) => id,
        };
        let ghost fs = self.folders@;
        let ghost start = start_id@;
        let ghost cand = walk_candidates(fs, start);
        let mut current: Option<String> = Some(String::from_str(start_id));
        let mut visited: Vec<String> = Vec::new();
        let ghost mut i: nat = 0;
        loop
            invariant
                fs == self.folders@,
                start == start_id@,
                folder_id == Some(start_id),
                cand == walk_candidates(fs, start),
                visited@.len() == i,
                out@.len() == i,
                current matches Some(c) ==> chain(fs, start, i) == Some(c@),
                current is None ==> chain(fs, start, i) is None,
                forall|j: int| 0 <= j < i ==> chain(fs, start, j as nat) == Some(#[trigger] views(visited@)[j]),
                forall|j: nat| j < i ==> #[trigger] chain(fs, start, j) is Some && lookup(fs, chain(fs, start, j)->0) is Some
                    && derefs(out@)[i - 1 - j] == fs[lookup(fs, chain(fs, start, j)->0)->0],
                views(visited@).no_duplicates(),
                forall|t: int| 0 <= t < i ==> cand.contains(#[trigger] views(visited@)[t]),
            decreases cand.len() + 1 - visited@.len(),
        {
            proof {
                lemma_distinct_bounded(views(visited@), cand);
                assert forall|j1: nat, j2: nat| j1 < j2 < i implies #[trigger] chain(fs, start, j1) != #[trigger] chain(fs, start, j2) by {
                    assert(chain(fs, start, j1) == Some(views(visited@)[j1 as int]));
                    assert(chain(fs, start, j2) == Some(views(visited@)[j2 as int]));
                }
            }
            let id = match current {
                None => {
                    return out;
                },
                Some(id) => id,
            };
            if contains_str(&visited, id.as_str()) {
                proof {
                    let j = choose|j: int| 0 <= j < views(visited@).len() && views(visited@)[j] == id@;
                    assert(chain(fs, start, j as nat) == chain(fs, start, i));
                    assert(walk_stops(fs, start, i));
                }
                return out;
            }
            proof {
                lemma_chain_candidate(fs, start, i);
            }
            let ghost before = views(visited@);
            visited.push(id.clone());
            proof {
                assert(views(visited@) =~= before.push(id@));
            }
            let folder = match self.folder(id.as_str()) {
                None => {
                    return out;
                },
                Some(f) => f,
            };
            let ghost out_before = derefs(out@);
            out.insert(0, folder);
            proof {
                assert(derefs(out@) =~= seq![*folder] + out_before);
            }
            current = match &folder.parent_id {
                Some(p) => Some(p.clone()),
                None => None,
            };
            proof {
                i = i + 1;
            }
        }
    }

    /// `ids` plus every folder below any of them, each id once.
    pub fn ids_including_descendants(&self, ids: &Vec<String>) -> (r: Vec<String>)
        ensures
            views(r@).no_duplicates(),
            views(r@).to_set() == spec_with_descendants(self.spec_folders(), views(ids@).to_set()),
    {
        let ghost fs = self.folders@;
        let ghost idset = views(ids@).to_set();
        let ghost bound = views(ids@) + fs.map_values(|f: MediaFolder| f.id@);
        let mut all: Vec<String> = Vec::new();
        let mut i: usize = 0;
        while i < ids.len()
            invariant
                i <= ids@.len(),
                views(all@).no_duplicates(),
                forall|t: int| 0 <= t < i ==> views(all@).contains(#[trigger] views(ids@)[t]),
                forall|x: Seq<char>| views(all@).contains(x) ==> views(ids@).contains(x),
            decreases ids@.len() - i,
        {
            let ghost b = views(all@);
            if !contains_str(&all, ids[i].as_str()) {
                all.push(ids[i].clone());
                proof {
                    assert(views(all@) =~= b.push(ids@[i as int]@));
                    assert(views(ids@)[i as int] == ids@[i as int]@);
                    assert(views(all@)[b.len() as int] == ids@[i as int]@);
                }
            }
            proof {
                assert forall|t: int| 0 <= t < i + 1 implies views(all@).contains(#[trigger] views(ids@)[t]) by {
                    if t < i {
                        let k = choose|k: int| 0 <= k < b.len() && b[k] == views(ids@)[t];
                        assert(views(all@)[k] == b[k]);
                    }
                }
                assert forall|x: Seq<char>| views(all@).contains(x) implies views(ids@).contains(x) by {
                    let k = choose|k: int| 0 <= k < views(all@).len() && views(all@)[k] == x;
                    if k < b.len() {
                        assert(b[k] == x);
                    } else {
                        assert(views(ids@)[i as int] == x);
                    }
                }
            }
            i = i + 1;
        }
        assert forall|t: int| 0 <= t < all@.len() implies spec_with_descendants(fs, idset).contains(#[trigger] views(all@)[t]) by {
            let x = views(all@)[t];
            assert(views(all@).contains(x));
            assert(views(ids@).contains(x));
            assert(descendants_within(fs, idset, 0).contains(x));
        }
        assert forall|x: Seq<char>| idset.contains(x) implies views(all@).contains(x) by {
            let t = choose|t: int| 0 <= t < views(ids@).len() && views(ids@)[t] == x;
        }
        assert forall|t: int| 0 <= t < all@.len() implies bound.contains(#[trigger] views(all@)[t]) by {
            let x = views(all@)[t];
            assert(views(all@).contains(x));
            let k = choose|k: int| 0 <= k < views(ids@).len() && views(ids@)[k] == x;
            assert(bound[k] == x);
        }
        let n = self.folders.len();
        let mut cursor: usize = 0;
        while cursor < all.len()
            invariant
                fs == self.folders@,
                n == fs.len(),
                idset == views(ids@).to_set(),
                bound == views(ids@) + fs.map_values(|f: MediaFolder| f.id@),
                cursor <= all@.len(),
                views(all@).no_duplicates(),
                forall|x: Seq<char>| idset.contains(x) ==> views(all@).contains(x),
                forall|t: int| 0 <= t < all@.len() ==> bound.contains(#[trigger] views(all@)[t]),
                forall|t: int| 0 <= t < all@.len() ==> spec_with_descendants(fs, idset).contains(#[trigger] views(all@)[t]),
                forall|t: int, c: int| 0 <= t < cursor && 0 <= c < n && #[trigger] child_of_set(fs[c], set![views(all@)[t]]) ==> views(all@).contains(#[trigger] fs[c].id@),
            decreases bound.len() - all@.len(), all@.len() - cursor,
        {
            proof {
                lemma_distinct_bounded(views(all@), bound);
            }
            let mut c: usize = 0;
            let ghost all_before = views(all@);
            while c < n
                invariant
                    fs == self.folders@,
                    n == fs.len(),
                    idset == views(ids@).to_set(),
                    bound == views(ids@) + fs.map_values(|f: MediaFolder| f.id@),
                    cursor < all@.len(),
                    c <= n,
                    all_before.len() <= all@.len(),
                    forall|t: int| 0 <= t < all_before.len() ==> views(all@)[t] == all_before[t],
                    views(all@).no_duplicates(),
                    forall|x: Seq<char>| idset.contains(x) ==> views(all@).contains(x),
                    forall|t: int| 0 <= t < all@.len() ==> bound.contains(#[trigger] views(all@)[t]),
                    forall|t: int| 0 <= t < all@.len() ==> spec_with_descendants(fs, idset).contains(#[trigger] views(all@)[t]),
                    forall|t: int, c2: int| 0 <= t < cursor && 0 <= c2 < n && #[trigger] child_of_set(fs[c2], set![views(all@)[t]]) ==> views(all@).contains(#[trigger] fs[c2].id@),
                    forall|c2: int| 0 <= c2 < c && #[trigger] child_of_set(fs[c2], set![views(all@)[cursor as int]]) ==> views(all@).contains(fs[c2].id@),
                decreases n - c,
            {
                let is_child = match &self.folders[c].parent_id {
                    Some(p) => str_eq(p.as_str(), all[cursor].as_str()),
                    None => false,
                };
                if is_child && !contains_str(&all, self.folders[c].id.as_str()) {
                    let ghost b = views(all@);
                    proof {
                        let x = b[cursor as int];
                        assert(spec_with_descendants(fs, idset).contains(x));
                        let k2: nat = choose|k2: nat| descendants_within(fs, idset, k2).contains(x);
                        assert(child_of_set(fs[c as int], descendants_within(fs, idset, k2)));
                        assert(descendants_within(fs, idset, k2 + 1).contains(fs[c as int].id@));
                        assert(bound[ids@.len() + c] == fs[c as int].id@);
                    }
                    all.push(self.folders[c].id.clone());
                    proof {
                        assert(views(all@) =~= b.push(fs[c as int].id@));
                        assert forall|x: Seq<char>| b.contains(x) implies views(all@).contains(x) by {
                            let k = choose|k: int| 0 <= k < b.len() && b[k] == x;
                            assert(views(all@)[k] == x);
                        }
                        assert(views(all@)[b.len() as int] == fs[c as int].id@);
                    }
                }
                c = c + 1;
            }
            proof {
                lemma_distinct_bounded(views(all@), bound);
            }
            cursor = cursor + 1;
        }
        proof {
            let fin = views(all@).to_set();
            assert forall|x: Seq<char>| fin.contains(x) <==> spec_with_descendants(fs, idset).contains(x) by {
                if fin.contains(x) {
                    let t = choose|t: int| 0 <= t < views(all@).len() && views(all@)[t] == x;
                }
                if spec_with_descendants(fs, idset).contains(x) {
                    let k: nat = choose|k: nat| descendants_within(fs, idset, k).contains(x);
                    lemma_closed_contains_descendants(fs, idset, views(all@), k);
                }
            }
            assert(fin =~= spec_with_descendants(fs, idset));
        }
        all
    }
}

/// The id text of an optional string.
pub open spec fn opt_view(o: Option<String>) -> Option<Seq<char>> {
    match o {
        Some(s) => Some(s@),
        None => None,
    }
}

/// The id text of an optional string slice.
pub open spec fn opt_str_view(o: Option<&str>) -> Option<Seq<char>> {
    match o {
        Some(s) => Some(s@),
        None => None,
    }
}

/// Index of the first folder at or after `i` with id `id`; `fs.len()` if none.
pub open spec fn first_with_id(fs: Seq<MediaFolder>, id: Seq<char>, i: int) -> int
    decreases fs.len() - i,
{
    if i < 0 || i >= fs.len() {
        fs.len() as int
    } else if fs[i].id@ == id {
        i
    } else {
        first_with_id(fs, id, i + 1)
    }
}

proof fn lemma_first_with_id(fs: Seq<MediaFolder>, id: Seq<char>, i: int)
    requires
        0 <= i <= fs.len(),
    ensures
        i <= first_with_id(fs, id, i) <= fs.len(),
        first_with_id(fs, id, i) < fs.len() ==> fs[first_with_id(fs, id, i)].id@ == id,
        forall|j: int| i <= j < first_with_id(fs, id, i) ==> fs[j].id@ != id,
    decreases fs.len() - i,
{
    if i < fs.len() && fs[i].id@ != id {
        lemma_first_with_id(fs, id, i + 1);
    }
}

fn position_of_folder(folders: &Vec<MediaFolder>, id: &str) -> (r: usize)
    ensures
        r == first_with_id(folders@, id@, 0),
{
    let n = folders.len();
    let mut i: usize = 0;
    while i < n
        invariant
            n == folders@.len(),
            i <= n,
            first_with_id(folders@, id@, 0) == first_with_id(folders@, id@, i as int),
        decreases n - i,
    {
        if str_eq(folders[i].id.as_str(), id) {
            return i;
        }
        i = i + 1;
    }
    i
}

/// Rename the (first) folder with `id` to `name`. Returns `false`, changing
/// nothing, when no folder has that id or the name is already `name`.
pub fn rename_folder(folders: &mut Vec<MediaFolder>, id: &str, name: &str) -> (r: bool)
    ensures
        ({
            let i = first_with_id(old(folders)@, id@, 0);
            &&& r == (i < old(folders)@.len() && old(folders)@[i].name@ != name@)
            &&& !r ==> final(folders)@ == old(folders)@
            &&& r ==> final(folders)@.len() == old(folders)@.len() && (forall|k: int|
                0 <= k < old(folders)@.len() && k != i ==> final(folders)@[k] == old(folders)@[k])
                && final(folders)@[i].id@ == old(folders)@[i].id@ && opt_view(final(folders)@[i].parent_id)
                == opt_view(old(folders)@[i].parent_id) && final(folders)@[i].name@ == name@
        }),
{
    let i = position_of_folder(folders, id);
    if i >= folders.len() {
        return false;
    }
    if str_eq(folders[i].name.as_str(), name) {
        return false;
    }
    let mut f = folders[i].clone_folder();
    f.name = String::from_str(name);
    folders.set(i, f);
    true
}

/// Whether moving folder `id` under `parent` (`None` = top level) passes the
/// three guards against `fs`: the folder exists, is not already a child of
/// `parent`, and `parent` is neither the folder itself nor below it.
pub open spec fn move_accepted(fs: Seq<MediaFolder>, id: Seq<char>, parent: Option<Seq<char>>) -> bool {
    &&& lookup(fs, id) is Some
    &&& opt_view(fs[lookup(fs, id)->0].parent_id) != parent
    &&& !(parent matches Some(t) && spec_is_descendant(fs, t, id))
    &&& parent != Some(id)
}

/// Folder `k` of `fs` is the first folder of an accepted move.
pub open spec fn moved_by(fs: Seq<MediaFolder>, ids: Seq<Seq<char>>, parent: Option<Seq<char>>, k: int) -> bool {
    exists|t: int| 0 <= t < ids.len() && move_accepted(fs, ids[t], parent) && first_with_id(fs, ids[t], 0) == k
}

impl MediaFolder {
    /// A field-by-field copy.
    pub fn clone_folder(&self) -> (r: MediaFolder)
        ensures
            r.id@ == self.id@,
            r.name@ == self.name@,
            opt_view(r.parent_id) == opt_view(self.parent_id),
    {
        MediaFolder {
            id: self.id.clone(),
            name: self.name.clone(),
            parent_id: match &self.parent_id {
                Some(p) => Some(p.clone()),
                None => None,
            },
        }
    }
}

fn owned_parent(parent: Option<&str>) -> (r: Option<String>)
    ensures
        opt_view(r) == opt_str_view(parent),
{
    match parent {
        Some(p) => Some(String::from_str(p)),
        None => None,
    }
}

/// Reparent `folder_ids` under `parent_folder_id` (`None` = top level). Each move
/// is checked against the tree as it was before any of them: a folder that does
/// not exist, is already a child of the target, or would move into itself or
/// one of its descendants is skipped. Returns whether any folder moved.
pub fn move_folders_to_folder(folders: &mut Vec<MediaFolder>, folder_ids: &Vec<String>, parent_folder_id: Option<&str>) -> (r: bool)
    ensures
        r == exists|t: int| 0 <= t < folder_ids@.len() && move_accepted(old(folders)@, views(folder_ids@)[t], opt_str_view(parent_folder_id)),
        final(folders)@.len() == old(folders)@.len(),
        forall|k: int| 0 <= k < old(folders)@.len() ==> {
            let o = #[trigger] old(folders)@[k];
            let f = final(folders)@[k];
            if moved_by(old(folders)@, views(folder_ids@), opt_str_view(parent_folder_id), k) {
                f.id@ == o.id@ && f.name@ == o.name@ && opt_view(f.parent_id) == opt_str_view(parent_folder_id)
            } else {
                f == o
            }
        },
        is_move_of(old(folders)@, views(folder_ids@), opt_str_view(parent_folder_id), final(folders)@),
{
    let ghost fs = folders@;
    let ghost target = opt_str_view(parent_folder_id);
    let ghost ids = views(folder_ids@);
    let mut accepted: Vec<String> = Vec::new();
    {
        let index = MediaFolderIndex::new(folders.as_slice());
        let mut t: usize = 0;
        while t < folder_ids.len()
            invariant
                index.spec_folders() == fs,
                ids == views(folder_ids@),
                target == opt_str_view(parent_folder_id),
                t <= folder_ids@.len(),
                forall|a: int| 0 <= a < accepted@.len() ==> move_accepted(fs, #[trigger] views(accepted@)[a], target),
                forall|a: int| 0 <= a < accepted@.len() ==> exists|u: int| 0 <= u < t && ids[u] == #[trigger] views(accepted@)[a],
                forall|u: int| 0 <= u < t && move_accepted(fs, #[trigger] ids[u], target) ==> views(accepted@).contains(ids[u]),
            decreases folder_ids@.len() - t,
        {
            let id = folder_ids[t].as_str();
            let ok = match index.folder(id) {
                None => false,
                Some(folder) => {
                    let same_parent = match (&folder.parent_id, parent_folder_id) {
                        (Some(p), Some(q)) => str_eq(p.as_str(), q),
                        (None, None) => true,
                        _ => false,
                    };
                    if same_parent {
                        false
                    } else {
                        let into_descendant = match parent_folder_id {
                            Some(q) => index.is_descendant(q, id),
                            None => false,
                        };
                        let into_self = match parent_folder_id {
                            Some(q) => str_eq(id, q),
                            None => false,
                        };
                        !into_descendant && !into_self
                    }
                },
            };
            proof {
                assert(ids[t as int] == id@);
            }
            if ok {
                let ghost b = views(accepted@);
                accepted.push(folder_ids[t].clone());
                proof {
                    assert(views(accepted@) =~= b.push(id@));
                    assert(views(accepted@)[b.len() as int] == id@);
                    assert forall|u: int| 0 <= u < t + 1 && move_accepted(fs, #[trigger] ids[u], target) implies views(accepted@).contains(ids[u]) by {
                        if u < t {
                            let a = choose|a: int| 0 <= a < b.len() && b[a] == ids[u];
                            assert(views(accepted@)[a] == ids[u]);
                        }
                    }
                }
            }
            t = t + 1;
        }
    }
    if accepted.len() == 0 {
        assert forall|t: int| 0 <= t < folder_ids@.len() implies !move_accepted(fs, views(folder_ids@)[t], target) by {
            if move_accepted(fs, ids[t], target) {
                assert(views(accepted@).contains(ids[t]));
            }
        }
        return false;
    }
    assert(move_accepted(fs, views(accepted@)[0], target));
    let mut a: usize = 0;
    while a < accepted.len()
        invariant
            folders@.len() == fs.len(),
            ids == views(folder_ids@),
            target == opt_str_view(parent_folder_id),
            a <= accepted@.len(),
            forall|x: int| 0 <= x < accepted@.len() ==> move_accepted(fs, #[trigger] views(accepted@)[x], target),
            forall|x: int| 0 <= x < accepted@.len() ==> exists|u: int| 0 <= u < ids.len() && ids[u] == #[trigger] views(accepted@)[x],
            forall|u: int| 0 <= u < ids.len() && move_accepted(fs, #[trigger] ids[u], target) ==> views(accepted@).contains(ids[u]),
            forall|k: int| 0 <= k < fs.len() ==> {
                let o = #[trigger] fs[k];
                let f = folders@[k];
                if exists|x: int| 0 <= x < a && first_with_id(fs, views(accepted@)[x], 0) == k {
                    f.id@ == o.id@ && f.name@ == o.name@ && opt_view(f.parent_id) == target
                } else {
                    f == o
                }
            },
        decreases accepted@.len() - a,
    {
        let ghost before = folders@;
        let i = position_of_folder(folders, accepted[a].as_str());
        proof {
            assert(views(accepted@)[a as int] == accepted@[a as int]@);
            lemma_first_with_id(fs, accepted@[a as int]@, 0);
            lemma_first_with_id(before, accepted@[a as int]@, 0);
            let x = accepted@[a as int]@;
            lemma_lookup_in(fs, x, fs.len() as int);
            assert forall|j: int| 0 <= j < fs.len() implies (before[j].id@ == x) == (fs[j].id@ == x) by {
                assert(before[j].id@ == fs[j].id@);
            }
            assert(first_with_id(fs, x, 0) == first_with_id(before, x, 0)) by {
                lemma_first_with_id_same_ids(fs, before, x, 0);
            }
        }
        if i < folders.len() {
            let mut f = folders[i].clone_folder();
            f.parent_id = owned_parent(parent_folder_id);
            folders.set(i, f);
        }
        a = a + 1;
    }
    proof {
        assert forall|k: int| 0 <= k < fs.len() implies (exists|x: int| 0 <= x < accepted@.len() && first_with_id(fs, views(accepted@)[x], 0) == k)
            == moved_by(fs, ids, target, k) by {
            if exists|x: int| 0 <= x < accepted@.len() && first_with_id(fs, views(accepted@)[x], 0) == k {
                let x = choose|x: int| 0 <= x < accepted@.len() && first_with_id(fs, views(accepted@)[x], 0) == k;
                let u = choose|u: int| 0 <= u < ids.len() && ids[u] == views(accepted@)[x];
                assert(move_accepted(fs, ids[u], target));
            }
            if moved_by(fs, ids, target, k) {
                let u = choose|u: int| 0 <= u < ids.len() && move_accepted(fs, ids[u], target) && first_with_id(fs, ids[u], 0) == k;
                assert(views(accepted@).contains(ids[u]));
                let x = choose|x: int| 0 <= x < views(accepted@).len() && views(accepted@)[x] == ids[u];
            }
        }
        let u0 = choose|u: int| 0 <= u < ids.len() && ids[u] == views(accepted@)[0];
        assert(move_accepted(fs, ids[u0], target));
    }
    true
}

proof fn lemma_first_with_id_same_ids(a: Seq<MediaFolder>, b: Seq<MediaFolder>, x: Seq<char>, i: int)
    requires
        a.len() == b.len(),
        0 <= i <= a.len(),
        forall|j: int| 0 <= j < a.len() ==> (a[j].id@ == x) == (b[j].id@ == x),
    ensures
        first_with_id(a, x, i) == first_with_id(b, x, i),
    decreases a.len() - i,
{
    if i < a.len() {
        lemma_first_with_id_same_ids(a, b, x, i + 1);
    }
}


// ---------------------------------------------------------------------------
// Subfolders ordered by name
// ---------------------------------------------------------------------------

/// What `str::to_lowercase` returns for a text.
pub uninterp spec fn text_lowercase_of(s: Seq<char>) -> Seq<char>;

/// Calls `str::to_lowercase`; the result is a function of the text alone,
/// named and not stated.
#[verifier::external_body]
fn text_to_lowercase(s: &str) -> (r: String)
    ensures
        r@ == text_lowercase_of(s@),
{
    s.to_lowercase()
}

/// Code-point order of texts, the order `str` compares in (UTF-8 keeps
/// code-point order): a proper prefix comes first, else the first differing
/// character decides.
pub open spec fn text_le(a: Seq<char>, b: Seq<char>) -> bool
    decreases a.len(),
{
    if a.len() == 0 {
        true
    } else if b.len() == 0 {
        false
    } else if a[0] != b[0] {
        (a[0] as int) < (b[0] as int)
    } else {
        text_le(a.drop_first(), b.drop_first())
    }
}

proof fn lemma_text_le_total(a: Seq<char>, b: Seq<char>)
    ensures
        text_le(a, b) || text_le(b, a),
    decreases a.len(),
{
    if a.len() > 0 && b.len() > 0 && a[0] == b[0] {
        lemma_text_le_total(a.drop_first(), b.drop_first());
    } else if a.len() > 0 && b.len() > 0 {
        assert((a[0] as int) != (b[0] as int));
    }
}

proof fn lemma_text_le_trans(a: Seq<char>, b: Seq<char>, c: Seq<char>)
    requires
        text_le(a, b),
        text_le(b, c),
    ensures
        text_le(a, c),
    decreases a.len(),
{
    if a.len() > 0 && b.len() > 0 && c.len() > 0 && a[0] == b[0] && b[0] == c[0] {
        lemma_text_le_trans(a.drop_first(), b.drop_first(), c.drop_first());
    }
}

fn text_le_exec(a: &str, b: &str) -> (r: bool)
    ensures
        r == text_le(a@, b@),
{
    let an = a.unicode_len();
    let bn = b.unicode_len();
    let mut i: usize = 0;
    assert(a@.skip(0) =~= a@ && b@.skip(0) =~= b@);
    while i < an && i < bn
        invariant
            an == a@.len(),
            bn == b@.len(),
            i <= an,
            i <= bn,
            text_le(a@, b@) == text_le(a@.skip(i as int), b@.skip(i as int)),
        decreases an - i,
    {
        let ca = a.get_char(i);
        let cb = b.get_char(i);
        assert(a@.skip(i as int)[0] == ca && b@.skip(i as int)[0] == cb);
        if ca != cb {
            return (ca as u32) < (cb as u32);
        }
        assert(a@.skip(i as int).drop_first() =~= a@.skip(i + 1));
        assert(b@.skip(i as int).drop_first() =~= b@.skip(i + 1));
        i = i + 1;
    }
    i == an
}

/// Positions kept in order of `key`, stably: a position goes after every
/// earlier one whose key is not greater.
pub open spec fn insert_by_key(sorted: Seq<int>, p: int, key: spec_fn(int) -> Seq<char>) -> Seq<int>
    decreases sorted.len(),
{
    if sorted.len() == 0 {
        seq![p]
    } else if text_le(key(sorted.last()), key(p)) {
        sorted.push(p)
    } else {
        insert_by_key(sorted.drop_last(), p, key).push(sorted.last())
    }
}

/// Positions stably sorted by `key`.
pub open spec fn sort_by_key(ps: Seq<int>, key: spec_fn(int) -> Seq<char>) -> Seq<int>
    decreases ps.len(),
{
    if ps.len() == 0 {
        Seq::empty()
    } else {
        insert_by_key(sort_by_key(ps.drop_last(), key), ps.last(), key)
    }
}

/// The sort key of a folder: its lowercased name.
pub open spec fn name_key(fs: Seq<MediaFolder>) -> spec_fn(int) -> Seq<char> {
    |k: int| text_lowercase_of(fs[k].name@)
}

/// The positions of the direct subfolders of `parent` (`None` = top level),
/// ordered by lowercased name, ties in list order.
pub open spec fn spec_subfolders(fs: Seq<MediaFolder>, parent: Option<Seq<char>>) -> Seq<int> {
    sort_by_key(kept_indices(fs.len(), |k: int| opt_view(fs[k].parent_id) == parent), name_key(fs))
}

/// Whether positions are in ascending `key` order.
pub open spec fn key_sorted(ps: Seq<int>, key: spec_fn(int) -> Seq<char>) -> bool {
    forall|i: int, j: int| 0 <= i < j < ps.len() ==> text_le(key(#[trigger] ps[i]), key(#[trigger] ps[j]))
}

proof fn lemma_insert_by_key(sorted: Seq<int>, p: int, key: spec_fn(int) -> Seq<char>)
    requires
        key_sorted(sorted, key),
    ensures
        key_sorted(insert_by_key(sorted, p, key), key),
        insert_by_key(sorted, p, key).to_multiset() == sorted.to_multiset().insert(p),
    decreases sorted.len(),
{
    broadcast use vstd::seq_lib::group_to_multiset_ensures;

    if sorted.len() == 0 {
        assert(seq![p] =~= Seq::<int>::empty().push(p));
    } else if text_le(key(sorted.last()), key(p)) {
        let r = sorted.push(p);
        assert forall|i: int, j: int| 0 <= i < j < r.len() implies text_le(key(#[trigger] r[i]), key(#[trigger] r[j])) by {
            if j == r.len() - 1 && i < sorted.len() - 1 {
                assert(text_le(key(sorted[i]), key(sorted[sorted.len() - 1])));
                lemma_text_le_trans(key(sorted[i]), key(sorted.last()), key(p));
            }
        }
    } else {
        let d = sorted.drop_last();
        let last = sorted.last();
        assert(key_sorted(d, key));
        lemma_insert_by_key(d, p, key);
        lemma_text_le_total(key(last), key(p));
        let ins = insert_by_key(d, p, key);
        let r = ins.push(last);
        assert(sorted =~= d.push(last));
        assert forall|i: int, j: int| 0 <= i < j < r.len() implies text_le(key(#[trigger] r[i]), key(#[trigger] r[j])) by {
            if j == r.len() - 1 {
                assert(ins.to_multiset().count(r[i]) > 0);
                if r[i] != p {
                    assert(d.to_multiset().count(r[i]) > 0);
                    assert(d.contains(r[i]));
                    let k = choose|k: int| 0 <= k < d.len() && d[k] == r[i];
                    assert(sorted[k] == d[k]);
                    assert(text_le(key(sorted[k]), key(sorted[sorted.len() - 1])));
                }
            }
        }
    }
}

/// Subfolders come in ascending order of lowercased name, each direct
/// subfolder of the parent exactly once.
pub proof fn law_subfolders_sorted(fs: Seq<MediaFolder>, parent: Option<Seq<char>>)
    ensures
        key_sorted(spec_subfolders(fs, parent), name_key(fs)),
        spec_subfolders(fs, parent).to_multiset() == kept_indices(
            fs.len(),
            |k: int| opt_view(fs[k].parent_id) == parent,
        ).to_multiset(),
{
    lemma_sort_by_key(kept_indices(fs.len(), |k: int| opt_view(fs[k].parent_id) == parent), name_key(fs));
}

proof fn lemma_sort_by_key(ps: Seq<int>, key: spec_fn(int) -> Seq<char>)
    ensures
        key_sorted(sort_by_key(ps, key), key),
        sort_by_key(ps, key).to_multiset() == ps.to_multiset(),
    decreases ps.len(),
{
    broadcast use vstd::seq_lib::group_to_multiset_ensures;

    if ps.len() > 0 {
        lemma_sort_by_key(ps.drop_last(), key);
        lemma_insert_by_key(sort_by_key(ps.drop_last(), key), ps.last(), key);
        assert(ps =~= ps.drop_last().push(ps.last()));
    }
}

fn insert_position(sorted: &mut Vec<usize>, keys: &Vec<String>, p: usize, Ghost(key): Ghost<spec_fn(int) -> Seq<char>>)
    requires
        p < keys@.len(),
        forall|k: int| 0 <= k < old(sorted)@.len() ==> (#[trigger] old(sorted)@[k]) < keys@.len(),
        forall|k: int| 0 <= k < keys@.len() ==> #[trigger] keys@[k]@ == key(k),
    ensures
        index_views(final(sorted)@) == insert_by_key(index_views(old(sorted)@), p as int, key),
        forall|k: int| 0 <= k < final(sorted)@.len() ==> (#[trigger] final(sorted)@[k]) < keys@.len(),
{
    let ghost s0 = index_views(sorted@);
    let mut at = sorted.len();
    assert(s0.take(at as int) =~= s0);
    assert(s0.take(at as int) + s0.skip(at as int) =~= s0);
    while at > 0 && !text_le_exec(keys[sorted[at - 1]].as_str(), keys[p].as_str())
        invariant
            at <= sorted@.len(),
            s0 == index_views(sorted@),
            p < keys@.len(),
            forall|k: int| 0 <= k < sorted@.len() ==> (#[trigger] sorted@[k]) < keys@.len(),
            forall|k: int| 0 <= k < keys@.len() ==> #[trigger] keys@[k]@ == key(k),
            insert_by_key(s0, p as int, key) == insert_by_key(s0.take(at as int), p as int, key) + s0.skip(
                at as int,
            ),
        decreases at,
    {
        proof {
            let t = s0.take(at as int);
            assert(t.last() == s0[at - 1]);
            assert(s0[at - 1] == sorted@[at - 1] as int);
            assert(t.drop_last() =~= s0.take(at - 1));
            assert(s0.skip(at - 1) =~= seq![s0[at - 1]] + s0.skip(at as int));
            assert(insert_by_key(t, p as int, key) == insert_by_key(s0.take(at - 1), p as int, key).push(s0[at - 1]));
            assert(insert_by_key(s0.take(at - 1), p as int, key).push(s0[at - 1]) + s0.skip(at as int)
                =~= insert_by_key(s0.take(at - 1), p as int, key) + s0.skip(at - 1));
        }
        at = at - 1;
    }
    proof {
        let t = s0.take(at as int);
        if at > 0 {
            assert(t.last() == s0[at - 1]);
            assert(s0[at - 1] == sorted@[at - 1] as int);
        }
        assert(insert_by_key(t, p as int, key) =~= t.push(p as int));
    }
    sorted.insert(at, p);
    assert(index_views(sorted@) =~= s0.take(at as int).push(p as int) + s0.skip(at as int));
}

impl<'a> MediaFolderIndex<'a> {
    /// The direct subfolders of `parent_folder_id` (`None` = top level),
    /// ordered by lowercased name; folders with equal names keep list order.
    pub fn subfolders(&self, parent_folder_id: Option<&str>) -> (r: Vec<&'a MediaFolder>)
        ensures
            r@.len() == spec_subfolders(self.spec_folders(), opt_str_view(parent_folder_id)).len(),
            forall|i: int|
                0 <= i < r@.len() ==> *#[trigger] r@[i] == self.spec_folders()[spec_subfolders(
                    self.spec_folders(),
                    opt_str_view(parent_folder_id),
                )[i]],
    {
        let ghost fs = self.folders@;
        let ghost parent = opt_str_view(parent_folder_id);
        let ghost keep = |k: int| opt_view(fs[k].parent_id) == parent;
        let ghost key = name_key(fs);
        let n = self.folders.len();
        let mut keys: Vec<String> = Vec::new();
        let mut kept: Vec<usize> = Vec::new();
        let mut k: usize = 0;
        while k < n
            invariant
                n == fs.len(),
                fs == self.folders@,
                parent == opt_str_view(parent_folder_id),
                keep == (|k: int| opt_view(fs[k].parent_id) == parent),
                key == name_key(fs),
                k <= n,
                keys@.len() == k,
                forall|j: int| 0 <= j < k ==> #[trigger] keys@[j]@ == key(j),
                index_views(kept@) == kept_indices(k as nat, keep),
                forall|j: int| 0 <= j < kept@.len() ==> (#[trigger] kept@[j]) < k,
            decreases n - k,
        {
            keys.push(text_to_lowercase(self.folders[k].name.as_str()));
            let same = match (&self.folders[k].parent_id, parent_folder_id) {
                (Some(a), Some(b)) => str_eq(a.as_str(), b),
                (None, None) => true,
                _ => false,
            };
            if same {
                let ghost before = kept@;
                kept.push(k);
                assert(index_views(kept@) =~= kept_indices(k as nat, keep).push(k as int));
            }
            k = k + 1;
        }
        let mut sorted: Vec<usize> = Vec::new();
        let mut i: usize = 0;
        assert(index_views(kept@).take(0) =~= Seq::<int>::empty());
        while i < kept.len()
            invariant
                keys@.len() == n,
                n == fs.len(),
                fs == self.folders@,
                key == name_key(fs),
                forall|j: int| 0 <= j < n ==> #[trigger] keys@[j]@ == key(j),
                forall|j: int| 0 <= j < kept@.len() ==> (#[trigger] kept@[j]) < n,
                i <= kept@.len(),
                forall|j: int| 0 <= j < sorted@.len() ==> (#[trigger] sorted@[j]) < n,
                index_views(sorted@) == sort_by_key(index_views(kept@).take(i as int), key),
            decreases kept@.len() - i,
        {
            assert(index_views(kept@).take(i + 1).drop_last() =~= index_views(kept@).take(i as int));
            assert(index_views(kept@).take(i + 1).last() == kept@[i as int] as int);
            insert_position(&mut sorted, &keys, kept[i], Ghost(key));
            i = i + 1;
        }
        assert(index_views(kept@).take(i as int) =~= index_views(kept@));
        let mut out: Vec<&'a MediaFolder> = Vec::new();
        let mut j: usize = 0;
        while j < sorted.len()
            invariant
                n == fs.len(),
                fs == self.folders@,
                forall|t: int| 0 <= t < sorted@.len() ==> (#[trigger] sorted@[t]) < n,
                j <= sorted@.len(),
                out@.len() == j,
                forall|t: int| 0 <= t < j ==> *#[trigger] out@[t] == fs[sorted@[t] as int],
            decreases sorted@.len() - j,
        {
            out.push(&self.folders[sorted[j]]);
            j = j + 1;
        }
        out
    }
}


// ---------------------------------------------------------------------------
// Moves keep the tree acyclic
// ---------------------------------------------------------------------------

/// No folder lies strictly below itself: climbing one or more parent links
/// from an id never comes back to it.
pub open spec fn acyclic(fs: Seq<MediaFolder>) -> bool {
    forall|x: Seq<char>, k: nat| k >= 1 ==> #[trigger] chain(fs, x, k) != Some(x)
}

/// Whether `after` is what a move of `ids` under `parent` makes of `before`:
/// the moved folders keep their id and get the new parent, the others stay.
pub open spec fn is_move_of(
    before: Seq<MediaFolder>,
    ids: Seq<Seq<char>>,
    parent: Option<Seq<char>>,
    after: Seq<MediaFolder>,
) -> bool {
    &&& after.len() == before.len()
    &&& forall|k: int|
        0 <= k < before.len() ==> if moved_by(before, ids, parent, k) {
            (#[trigger] after[k]).id@ == before[k].id@ && opt_view(after[k].parent_id) == parent
        } else {
            after[k] == before[k]
        }
}

/// The id `y` names a folder that the move re-parents.
spec fn redirected(before: Seq<MediaFolder>, ids: Seq<Seq<char>>, parent: Option<Seq<char>>, y: Seq<char>) -> bool {
    lookup(before, y) matches Some(k) && moved_by(before, ids, parent, k)
}

proof fn lemma_lookup_in_same_ids(fs: Seq<MediaFolder>, gs: Seq<MediaFolder>, id: Seq<char>, n: int)
    requires
        fs.len() == gs.len(),
        forall|k: int| 0 <= k < fs.len() ==> (#[trigger] gs[k]).id@ == fs[k].id@,
        0 <= n <= fs.len(),
    ensures
        lookup_in(gs, id, n) == lookup_in(fs, id, n),
    decreases n,
{
    if n > 0 {
        assert(gs[n - 1].id@ == fs[n - 1].id@);
        lemma_lookup_in_same_ids(fs, gs, id, n - 1);
    }
}

proof fn lemma_parent_after_move(
    before: Seq<MediaFolder>,
    ids: Seq<Seq<char>>,
    parent: Option<Seq<char>>,
    after: Seq<MediaFolder>,
    y: Seq<char>,
)
    requires
        is_move_of(before, ids, parent, after),
    ensures
        parent_of(after, y) == if redirected(before, ids, parent, y) {
            parent
        } else {
            parent_of(before, y)
        },
{
    assert forall|k: int| 0 <= k < before.len() implies (#[trigger] after[k]).id@ == before[k].id@ by {
        if moved_by(before, ids, parent, k) {
        } else {
        }
    }
    lemma_lookup_in_same_ids(before, after, y, before.len() as int);
    lemma_lookup_in(before, y, before.len() as int);
    if let Some(k) = lookup(before, y) {
        if moved_by(before, ids, parent, k) {
            assert(opt_view(after[k].parent_id) == parent);
        } else {
            assert(after[k] == before[k]);
        }
    }
}

proof fn lemma_chain_compose(fs: Seq<MediaFolder>, x: Seq<char>, a: nat, b: nat)
    ensures
        chain(fs, x, a + b) == match chain(fs, x, a) {
            Some(z) => chain(fs, z, b),
            None => None,
        },
    decreases b,
{
    if b == 0 {
    } else {
        lemma_chain_compose(fs, x, a, (b - 1) as nat);
        assert((a + b - 1) as nat == a + (b - 1) as nat);
        if chain(fs, x, a) is None {
            lemma_chain_ended(fs, x, a, a + b);
        }
    }
}

/// Until the walk from `x` meets a re-parented folder, it is the walk before
/// the move.
proof fn lemma_walk_unchanged(
    before: Seq<MediaFolder>,
    ids: Seq<Seq<char>>,
    parent: Option<Seq<char>>,
    after: Seq<MediaFolder>,
    x: Seq<char>,
    j: nat,
)
    requires
        is_move_of(before, ids, parent, after),
        forall|t: nat| t < j ==> (#[trigger] chain(after, x, t) matches Some(z) ==> !redirected(before, ids, parent, z)),
    ensures
        chain(after, x, j) == chain(before, x, j),
    decreases j,
{
    if j > 0 {
        lemma_walk_unchanged(before, ids, parent, after, x, (j - 1) as nat);
        let prev = (j - 1) as nat;
        if let Some(z) = chain(after, x, prev) {
            lemma_parent_after_move(before, ids, parent, after, z);
        }
    }
}

/// The first step, from `from` on, at which the walk from `x` stands on a
/// re-parented folder, given that it does so at step `to`.
proof fn first_redirected_step(
    before: Seq<MediaFolder>,
    ids: Seq<Seq<char>>,
    parent: Option<Seq<char>>,
    after: Seq<MediaFolder>,
    x: Seq<char>,
    from: nat,
    to: nat,
) -> (j: nat)
    requires
        from <= to,
        chain(after, x, to) matches Some(z) && redirected(before, ids, parent, z),
        forall|t: nat| t < from ==> (#[trigger] chain(after, x, t) matches Some(z) ==> !redirected(before, ids, parent, z)),
    ensures
        j <= to,
        chain(after, x, j) matches Some(z) && redirected(before, ids, parent, z),
        forall|t: nat| t < j ==> (#[trigger] chain(after, x, t) matches Some(z) ==> !redirected(before, ids, parent, z)),
    decreases to - from,
{
    if chain(after, x, from) matches Some(z) && redirected(before, ids, parent, z) {
        from
    } else {
        assert forall|t: nat| t < from + 1 implies (#[trigger] chain(after, x, t) matches Some(z) ==> !redirected(
            before,
            ids,
            parent,
            z,
        )) by {
            if t < from {
            }
        }
        first_redirected_step(before, ids, parent, after, x, from + 1, to)
    }
}

/// Moving folders keeps the tree acyclic: when no folder lies strictly below
/// itself before a move, none does after it. (A folder is moved only under a
/// target that does not lie below it, so no new parent link closes a loop.)
pub proof fn law_move_keeps_tree_acyclic(
    before: Seq<MediaFolder>,
    ids: Seq<Seq<char>>,
    parent: Option<Seq<char>>,
    after: Seq<MediaFolder>,
)
    requires
        acyclic(before),
        is_move_of(before, ids, parent, after),
    ensures
        acyclic(after),
{
    assert forall|x: Seq<char>, k: nat| k >= 1 implies #[trigger] chain(after, x, k) != Some(x) by {
        if chain(after, x, k) == Some(x) {
            if exists|i: nat| i < k && (#[trigger] chain(after, x, i) matches Some(z) && redirected(before, ids, parent, z)) {
                let i = choose|i: nat| i < k && (#[trigger] chain(after, x, i) matches Some(z) && redirected(before, ids, parent, z));
                let y = chain(after, x, i)->0;
                lemma_parent_after_move(before, ids, parent, after, y);
                assert(chain(after, x, i + 1) == parent);
                if parent is None {
                    lemma_chain_ended(after, x, i + 1, k);
                } else {
                    let p = parent->0;
                    // From `p` the walk goes on around the loop back to `y`.
                    let steps = (k - 1) as nat;
                    lemma_chain_compose(after, x, i + 1, steps);
                    lemma_chain_compose(after, x, k, i);
                    assert((i + 1 + steps) as nat == k + i);
                    assert(chain(after, p, steps) == Some(y));
                    let j = first_redirected_step(before, ids, parent, after, p, 0, steps);
                    lemma_walk_unchanged(before, ids, parent, after, p, j);
                    let z = chain(after, p, j)->0;
                    let m = lookup(before, z)->0;
                    let t = choose|t: int|
                        0 <= t < ids.len() && move_accepted(before, ids[t], parent) && first_with_id(before, ids[t], 0) == m;
                    lemma_first_with_id(before, ids[t], 0);
                    lemma_lookup_in(before, z, before.len() as int);
                    assert(ids[t] == z);
                    assert(spec_is_descendant(before, p, z));
                }
            } else {
                assert forall|t: nat| t < k implies (#[trigger] chain(after, x, t) matches Some(z) ==> !redirected(
                    before,
                    ids,
                    parent,
                    z,
                )) by {}
                lemma_walk_unchanged(before, ids, parent, after, x, k);
            }
        }
    }
}

} // verus!
