use vstd::prelude::*;

use crate::model::manifest::MediaFolder;
use crate::model::media_folders::{
    child_of_set, descendants_within, opt_str_view, opt_view, spec_with_descendants, MediaFolderIndex,
};
use crate::text::{contains_str, str_eq, views};

verus! {

/// What folder operations read of a media asset (or of its manifest entry):
/// its id and the folder it lives in (`None` = top level).
#[derive(Debug, Clone, PartialEq, Eq)]
pub struct AssetPlacement {
    pub id: String,
    pub folder_id: Option<String>,
}

/// The indices below `n` that satisfy `keep`, ascending.
pub open spec fn kept_indices(n: nat, keep: spec_fn(int) -> bool) -> Seq<int>
    decreases n,
{
    if n == 0 {
        Seq::empty()
    } else {
        let r = kept_indices((n - 1) as nat, keep);
        if keep(n - 1) {
            r.push(n - 1)
        } else {
            r
        }
    }
}

/// Indices as integers.
pub open spec fn index_views(v: Seq<usize>) -> Seq<int> {
    v.map_values(|k: usize| k as int)
}

/// Whether an asset lives in one of the folders of `d`.
pub open spec fn placed_in(a: AssetPlacement, d: Set<Seq<char>>) -> bool {
    match opt_view(a.folder_id) {
        Some(f) => d.contains(f),
        None => false,
    }
}

/// The folders a delete of `ids` removes: those folders and all below them.
pub open spec fn deleted_folders(fs: Seq<MediaFolder>, ids: Seq<Seq<char>>) -> Set<Seq<char>> {
    spec_with_descendants(fs, ids.to_set())
}

/// A folder delete leaves no orphan: a folder whose parent is removed is
/// removed too, so every folder a delete keeps sits at the top level or under
/// a kept folder.
pub proof fn law_delete_leaves_no_orphans(fs: Seq<MediaFolder>, ids: Seq<Seq<char>>, c: int)
    requires
        0 <= c < fs.len(),
        !deleted_folders(fs, ids).contains(fs[c].id@),
    ensures
        !child_of_set(fs[c], deleted_folders(fs, ids)),
{
    let d = deleted_folders(fs, ids);
    if child_of_set(fs[c], d) {
        let p = fs[c].parent_id->0@;
        assert(d.contains(p));
        let m: nat = choose|m: nat| #[trigger] descendants_within(fs, ids.to_set(), m).contains(p);
        assert(child_of_set(fs[c], descendants_within(fs, ids.to_set(), m)));
        assert(descendants_within(fs, ids.to_set(), m + 1).contains(fs[c].id@));
    }
}

/// The asset ids a delete removes: the assets living in a deleted folder.
pub open spec fn deleted_assets(assets: Seq<AssetPlacement>, d: Set<Seq<char>>) -> Set<Seq<char>> {
    Set::new(
        |x: Seq<char>|
            exists|k: int| 0 <= k < assets.len() && assets[k].id@ == x && placed_in(assets[k], d),
    )
}

/// Whether a delete of `ids` changes anything: `ids` is not empty and some
/// folder of the tree is among the folders it removes.
pub open spec fn delete_applies(fs: Seq<MediaFolder>, ids: Seq<Seq<char>>) -> bool {
    ids.len() > 0 && exists|k: int| 0 <= k < fs.len() && deleted_folders(fs, ids).contains(
        #[trigger] fs[k].id@,
    )
}

/// The clips of track `t` that survive: those not referencing a removed asset.
pub open spec fn clips_surviving(refs: Seq<Seq<Seq<char>>>, t: int, a: Set<Seq<char>>) -> Seq<int> {
    kept_indices(refs[t].len(), |c: int| !a.contains(refs[t][c]))
}

/// Whether the delete removes any clip.
pub open spec fn removes_a_clip(refs: Seq<Seq<Seq<char>>>, a: Set<Seq<char>>) -> bool {
    exists|t: int, c: int| 0 <= t < refs.len() && 0 <= c < refs[t].len() && a.contains(
        #[trigger] refs[t][c],
    )
}

/// The tracks that survive: all of them, unless a clip was removed, in which
/// case the tracks left without clips are pruned.
pub open spec fn tracks_surviving(refs: Seq<Seq<Seq<char>>>, a: Set<Seq<char>>) -> Seq<int> {
    if removes_a_clip(refs, a) {
        kept_indices(refs.len(), |t: int| clips_surviving(refs, t, a).len() > 0)
    } else {
        kept_indices(refs.len(), |t: int| true)
    }
}

/// The clip references of every track, as text.
pub open spec fn track_views(tracks: Seq<Vec<String>>) -> Seq<Seq<Seq<char>>> {
    tracks.map_values(|t: Vec<String>| views(t@))
}

/// What a folder delete keeps, as indices into the inputs: the folders, the
/// catalog assets, the manifest entries, the tracks, and per input track the
/// clips.
#[derive(Debug, Clone, PartialEq, Eq)]
pub struct FolderDeletePlan {
    pub folders_kept: Vec<usize>,
    pub assets_kept: Vec<usize>,
    pub entries_kept: Vec<usize>,
    pub tracks_kept: Vec<usize>,
    pub clips_kept: Vec<Vec<usize>>,
}

fn keep_not_in(ids: &Vec<String>, remove: &Vec<String>) -> (r: Vec<usize>)
    ensures
        index_views(r@) == kept_indices(ids@.len(), |k: int| !views(remove@).contains(ids@[k]@)),
{
    let mut out: Vec<usize> = Vec::new();
    let mut k: usize = 0;
    while k < ids.len()
        invariant
            k <= ids@.len(),
            index_views(out@) == kept_indices(k as nat, |j: int| !views(remove@).contains(ids@[j]@)),
        decreases ids@.len() - k,
    {
        if !contains_str(remove, ids[k].as_str()) {
            out.push(k);
            assert(index_views(out@) =~= kept_indices(k as nat, |j: int| !views(remove@).contains(ids@[j]@)).push(k as int));
        }
        k = k + 1;
    }
    out
}

fn ids_of_folders(fs: &[MediaFolder]) -> (r: Vec<String>)
    ensures
        r@.len() == fs@.len(),
        forall|k: int| 0 <= k < fs@.len() ==> #[trigger] r@[k]@ == fs@[k].id@,
{
    let mut out: Vec<String> = Vec::new();
    let mut k: usize = 0;
    while k < fs.len()
        invariant
            k <= fs@.len(),
            out@.len() == k,
            forall|j: int| 0 <= j < k ==> #[trigger] out@[j]@ == fs@[j].id@,
        decreases fs@.len() - k,
    {
        out.push(fs[k].id.clone());
        k = k + 1;
    }
    out
}

fn asset_ids(assets: &Vec<AssetPlacement>) -> (r: Vec<String>)
    ensures
        r@.len() == assets@.len(),
        forall|k: int| 0 <= k < assets@.len() ==> #[trigger] r@[k]@ == assets@[k].id@,
{
    let mut out: Vec<String> = Vec::new();
    let mut k: usize = 0;
    while k < assets.len()
        invariant
            k <= assets@.len(),
            out@.len() == k,
            forall|j: int| 0 <= j < k ==> #[trigger] out@[j]@ == assets@[j].id@,
        decreases assets@.len() - k,
    {
        out.push(assets[k].id.clone());
        k = k + 1;
    }
    out
}

proof fn lemma_kept_same<A>(n: nat, p: spec_fn(int) -> bool, q: spec_fn(int) -> bool)
    requires
        forall|k: int| 0 <= k < n ==> #[trigger] p(k) == q(k),
    ensures
        kept_indices(n, p) == kept_indices(n, q),
    decreases n,
{
    if n > 0 {
        lemma_kept_same::<A>((n - 1) as nat, p, q);
    }
}

/// Plans the delete of `folder_ids` together with everything below them: the
/// assets living in a removed folder go (from the catalog `assets` and from the
/// manifest `entries`), so do the clips that reference them (`tracks` holds
/// each track's clip media references), and, when a clip went, the tracks
/// left without clips. `None` (nothing changes) when `folder_ids` is empty or
/// names no folder of the tree.
pub fn plan_delete_folders(
    folders: &[MediaFolder],
    assets: &Vec<AssetPlacement>,
    entries: &Vec<AssetPlacement>,
    tracks: &Vec<Vec<String>>,
    folder_ids: &Vec<String>,
) -> (r: Option<FolderDeletePlan>)
    ensures
        r is Some == delete_applies(folders@, views(folder_ids@)),
        r matches Some(plan) ==> ({
            let d = deleted_folders(folders@, views(folder_ids@));
            let a = deleted_assets(assets@, d);
            let refs = track_views(tracks@);
            &&& index_views(plan.folders_kept@) == kept_indices(
                folders@.len(),
                |k: int| !d.contains(folders@[k].id@),
            )
            &&& index_views(plan.assets_kept@) == kept_indices(
                assets@.len(),
                |k: int| !a.contains(assets@[k].id@),
            )
            &&& index_views(plan.entries_kept@) == kept_indices(
                entries@.len(),
                |k: int| !a.contains(entries@[k].id@),
            )
            &&& plan.clips_kept@.len() == tracks@.len()
            &&& forall|t: int|
                0 <= t < tracks@.len() ==> index_views(#[trigger] plan.clips_kept@[t]@)
                    == clips_surviving(refs, t, a)
            &&& index_views(plan.tracks_kept@) == tracks_surviving(refs, a)
        }),
{
    if folder_ids.len() == 0 {
        return None;
    }
    let ghost fs = folders@;
    let ghost d = deleted_folders(fs, views(folder_ids@));
    let index = MediaFolderIndex::new(folders);
    let all = index.ids_including_descendants(folder_ids);
    assert(views(all@).to_set() == d);
    let mut any = false;
    let mut k: usize = 0;
    while k < folders.len()
        invariant
            fs == folders@,
            d == deleted_folders(fs, views(folder_ids@)),
            views(all@).to_set() == d,
            k <= fs.len(),
            any == exists|j: int| 0 <= j < k && d.contains(#[trigger] fs[j].id@),
        decreases fs.len() - k,
    {
        if contains_str(&all, folders[k].id.as_str()) {
            assert(d.contains(fs[k as int].id@));
            any = true;
        }
        k = k + 1;
    }
    if !any {
        return None;
    }
    // The assets living in a removed folder.
    let mut gone: Vec<String> = Vec::new();
    let ghost a = deleted_assets(assets@, d);
    let mut k: usize = 0;
    while k < assets.len()
        invariant
            views(all@).to_set() == d,
            a == deleted_assets(assets@, d),
            k <= assets@.len(),
            forall|x: Seq<char>| views(gone@).contains(x) ==> a.contains(x),
            forall|j: int| 0 <= j < k && placed_in(#[trigger] assets@[j], d) ==> views(gone@).contains(
                assets@[j].id@,
            ),
        decreases assets@.len() - k,
    {
        let inside = match &assets[k].folder_id {
            Some(f) => contains_str(&all, f.as_str()),
            None => false,
        };
        if inside {
            let ghost b = views(gone@);
            gone.push(assets[k].id.clone());
            proof {
                assert(views(gone@) =~= b.push(assets@[k as int].id@));
                assert(a.contains(assets@[k as int].id@));
                assert forall|x: Seq<char>| views(gone@).contains(x) implies a.contains(x) by {
                    let i = choose|i: int| 0 <= i < views(gone@).len() && views(gone@)[i] == x;
                    if i < b.len() {
                        assert(b[i] == x);
                    }
                }
                assert forall|j: int| 0 <= j < k + 1 && placed_in(#[trigger] assets@[j], d) implies views(
                    gone@,
                ).contains(assets@[j].id@) by {
                    if j < k {
                        let i = choose|i: int| 0 <= i < b.len() && b[i] == assets@[j].id@;
                        assert(views(gone@)[i] == b[i]);
                    } else {
                        assert(views(gone@)[b.len() as int] == assets@[j].id@);
                    }
                }
            }
        }
        k = k + 1;
    }
    assert forall|x: Seq<char>| views(gone@).contains(x) <==> a.contains(x) by {
        if a.contains(x) {
            let j = choose|j: int| 0 <= j < assets@.len() && assets@[j].id@ == x && placed_in(assets@[j], d);
        }
    }
    let fids = ids_of_folders(folders);
    let folders_kept = keep_not_in(&fids, &all);
    proof {
        lemma_kept_same::<int>(
            fs.len(),
            |j: int| !views(all@).contains(fids@[j]@),
            |j: int| !d.contains(fs[j].id@),
        );
    }
    let aids = asset_ids(assets);
    let assets_kept = keep_not_in(&aids, &gone);
    proof {
        lemma_kept_same::<int>(
            assets@.len(),
            |j: int| !views(gone@).contains(aids@[j]@),
            |j: int| !a.contains(assets@[j].id@),
        );
    }
    let eids = asset_ids(entries);
    let entries_kept = keep_not_in(&eids, &gone);
    proof {
        lemma_kept_same::<int>(
            entries@.len(),
            |j: int| !views(gone@).contains(eids@[j]@),
            |j: int| !a.contains(entries@[j].id@),
        );
    }
    // Clips, track by track.
    let ghost refs = track_views(tracks@);
    let mut clips_kept: Vec<Vec<usize>> = Vec::new();
    let mut removed_any = false;
    let mut t: usize = 0;
    while t < tracks.len()
        invariant
            refs == track_views(tracks@),
            forall|x: Seq<char>| views(gone@).contains(x) <==> a.contains(x),
            t <= tracks@.len(),
            clips_kept@.len() == t,
            forall|u: int|
                0 <= u < t ==> index_views(#[trigger] clips_kept@[u]@) == clips_surviving(refs, u, a),
            removed_any == exists|u: int, c: int| 0 <= u < t && 0 <= c < refs[u].len() && a.contains(
                #[trigger] refs[u][c],
            ),
        decreases tracks@.len() - t,
    {
        let kept = keep_not_in(&tracks[t], &gone);
        proof {
            assert(refs[t as int] == views(tracks@[t as int]@));
            lemma_kept_same::<int>(
                tracks@[t as int]@.len(),
                |j: int| !views(gone@).contains(tracks@[t as int]@[j]@),
                |c: int| !a.contains(refs[t as int][c]),
            );
            lemma_kept_len_lt(refs[t as int].len(), |c: int| !a.contains(refs[t as int][c]));
        }
        let ghost before = removed_any;
        if kept.len() < tracks[t].len() {
            removed_any = true;
        }
        proof {
            let keep = |c: int| !a.contains(refs[t as int][c]);
            assert(index_views(kept@).len() == kept@.len());
            assert(refs[t as int].len() == tracks@[t as int]@.len());
            if exists|c: int| 0 <= c < refs[t as int].len() && a.contains(#[trigger] refs[t as int][c]) {
                let c = choose|c: int| 0 <= c < refs[t as int].len() && a.contains(#[trigger] refs[t as int][c]);
                assert(!keep(c));
            }
            if kept@.len() < tracks@[t as int]@.len() {
                let c = choose|c: int| 0 <= c < refs[t as int].len() && !#[trigger] keep(c);
                assert(a.contains(refs[t as int][c]));
            }
            if before {
                let (u, c) = choose|u: int, c: int| 0 <= u < t && 0 <= c < refs[u].len() && a.contains(#[trigger] refs[u][c]);
                assert(a.contains(refs[u][c]));
            }
        }
        clips_kept.push(kept);
        t = t + 1;
    }
    let mut tracks_kept: Vec<usize> = Vec::new();
    let mut t: usize = 0;
    while t < tracks.len()
        invariant
            refs == track_views(tracks@),
            clips_kept@.len() == tracks@.len(),
            forall|u: int|
                0 <= u < tracks@.len() ==> index_views(#[trigger] clips_kept@[u]@) == clips_surviving(
                    refs,
                    u,
                    a,
                ),
            removed_any == removes_a_clip(refs, a),
            t <= tracks@.len(),
            index_views(tracks_kept@) == if removed_any {
                kept_indices(t as nat, |u: int| clips_surviving(refs, u, a).len() > 0)
            } else {
                kept_indices(t as nat, |u: int| true)
            },
        decreases tracks@.len() - t,
    {
        assert(index_views(clips_kept@[t as int]@).len() == clips_kept@[t as int]@.len());
        if !removed_any || clips_kept[t].len() > 0 {
            tracks_kept.push(t);
            assert(index_views(tracks_kept@) =~= if removed_any {
                kept_indices(t as nat, |u: int| clips_surviving(refs, u, a).len() > 0)
            } else {
                kept_indices(t as nat, |u: int| true)
            }.push(t as int));
        }
        t = t + 1;
    }
    Some(FolderDeletePlan { folders_kept, assets_kept, entries_kept, tracks_kept, clips_kept })
}

proof fn lemma_kept_len_lt(n: nat, keep: spec_fn(int) -> bool)
    ensures
        kept_indices(n, keep).len() <= n,
        kept_indices(n, keep).len() < n <==> exists|c: int| 0 <= c < n && !#[trigger] keep(c),
    decreases n,
{
    if n > 0 {
        lemma_kept_len_lt((n - 1) as nat, keep);
        if exists|c: int| 0 <= c < n && !#[trigger] keep(c) {
            let c = choose|c: int| 0 <= c < n && !#[trigger] keep(c);
            if c < n - 1 {
                assert(exists|c2: int| 0 <= c2 < n - 1 && !#[trigger] keep(c2));
            }
        }
    }
}

// ---------------------------------------------------------------------------
// Folder creation and asset moves
// ---------------------------------------------------------------------------

/// Calls `uuid::Uuid::new_v4` and renders the identifier as text. It is
/// random; the rendering is the hyphenated form, 36 characters long.
#[verifier::external_body]
pub(crate) fn new_uuid_string() -> (r: String)
    ensures
        r@.len() == 36,
{
    uuid::Uuid::new_v4().to_string()
}

/// Creates a folder named `name` under `parent_folder_id` (`None` = top level)
/// with a fresh random UUID as its id, appends it and returns the id.
pub fn create_folder(folders: &mut Vec<MediaFolder>, name: &str, parent_folder_id: Option<&str>) -> (r:
    String)
    ensures
        r@.len() == 36,
        final(folders)@.len() == old(folders)@.len() + 1,
        final(folders)@.take(old(folders)@.len() as int) == old(folders)@,
        final(folders)@.last().id@ == r@,
        final(folders)@.last().name@ == name@,
        opt_view(final(folders)@.last().parent_id) == opt_str_view(parent_folder_id),
{
    let id = new_uuid_string();
    let parent = match parent_folder_id {
        Some(p) => Some(p.to_string()),
        None => None,
    };
    let ghost before = folders@;
    folders.push(MediaFolder { id: id.clone(), name: name.to_string(), parent_id: parent });
    assert(folders@.take(before.len() as int) =~= before);
    id
}

/// The ids of a list of placements.
pub open spec fn placement_ids(s: Seq<AssetPlacement>) -> Seq<Seq<char>> {
    s.map_values(|a: AssetPlacement| a.id@)
}

/// The first index at or after `i` whose id is `id` (the length when none).
pub open spec fn first_index(ids: Seq<Seq<char>>, id: Seq<char>, i: int) -> int
    decreases ids.len() - i,
{
    if i < 0 || i >= ids.len() {
        ids.len() as int
    } else if ids[i] == id {
        i
    } else {
        first_index(ids, id, i + 1)
    }
}

/// Whether moving the asset with `id` to `target` changes it: some asset has
/// that id and the first one is not already in `target`.
pub open spec fn asset_moves(assets: Seq<AssetPlacement>, id: Seq<char>, target: Option<Seq<char>>) -> bool {
    let k = first_index(placement_ids(assets), id, 0);
    k < assets.len() && opt_view(assets[k].folder_id) != target
}

/// Whether index `k` of `list` is the first entry of some id that moves.
pub open spec fn moved_at(
    assets: Seq<AssetPlacement>,
    list: Seq<AssetPlacement>,
    ids: Seq<Seq<char>>,
    target: Option<Seq<char>>,
    k: int,
) -> bool {
    exists|t: int|
        0 <= t < ids.len() && asset_moves(assets, ids[t], target) && first_index(
            placement_ids(list),
            ids[t],
            0,
        ) == k
}

/// `after` is `before` with the entries at the moved indices placed in
/// `target` and everything else unchanged.
pub open spec fn moved_list(
    assets: Seq<AssetPlacement>,
    before: Seq<AssetPlacement>,
    after: Seq<AssetPlacement>,
    ids: Seq<Seq<char>>,
    target: Option<Seq<char>>,
) -> bool {
    &&& after.len() == before.len()
    &&& forall|k: int|
        0 <= k < before.len() ==> if moved_at(assets, before, ids, target, k) {
            after[k].id@ == (#[trigger] before[k]).id@ && opt_view(after[k].folder_id) == target
        } else {
            after[k] == before[k]
        }
}

proof fn lemma_first_index(ids: Seq<Seq<char>>, id: Seq<char>, i: int)
    requires
        0 <= i <= ids.len(),
    ensures
        i <= first_index(ids, id, i) <= ids.len(),
        first_index(ids, id, i) < ids.len() ==> ids[first_index(ids, id, i)] == id,
        forall|j: int| i <= j < first_index(ids, id, i) ==> ids[j] != id,
    decreases ids.len() - i,
{
    if i < ids.len() && ids[i] != id {
        lemma_first_index(ids, id, i + 1);
    }
}

fn position_of_asset(list: &Vec<AssetPlacement>, id: &str) -> (r: usize)
    ensures
        r == first_index(placement_ids(list@), id@, 0),
{
    let ghost ids = placement_ids(list@);
    let n = list.len();
    let mut i: usize = 0;
    while i < n
        invariant
            n == list@.len(),
            ids == placement_ids(list@),
            i <= n,
            first_index(ids, id@, 0) == first_index(ids, id@, i as int),
        decreases n - i,
    {
        assert(ids[i as int] == list@[i as int].id@);
        if str_eq(list[i].id.as_str(), id) {
            return i;
        }
        i = i + 1;
    }
    i
}

fn same_folder(a: &Option<String>, b: Option<&str>) -> (r: bool)
    ensures
        r == (opt_view(*a) == opt_str_view(b)),
{
    match (a, b) {
        (Some(x), Some(y)) => str_eq(x.as_str(), y),
        (None, None) => true,
        _ => false,
    }
}

fn set_folder_at(list: &mut Vec<AssetPlacement>, k: usize, folder_id: Option<&str>)
    requires
        k < old(list)@.len(),
    ensures
        final(list)@.len() == old(list)@.len(),
        final(list)@[k as int].id@ == old(list)@[k as int].id@,
        opt_view(final(list)@[k as int].folder_id) == opt_str_view(folder_id),
        forall|j: int| 0 <= j < old(list)@.len() && j != k ==> final(list)@[j] == old(list)@[j],
        placement_ids(final(list)@) == placement_ids(old(list)@),
{
    let folder = match folder_id {
        Some(f) => Some(f.to_string()),
        None => None,
    };
    let updated = AssetPlacement { id: list[k].id.clone(), folder_id: folder };
    list.set(k, updated);
    assert(placement_ids(list@) =~= placement_ids(old(list)@));
}

/// Moves the assets `asset_ids` into folder `folder_id` (`None` = top level):
/// for each id, the first catalog asset with that id, unless it is missing or
/// already there, moves, together with the first manifest entry of that id.
/// Returns whether anything moved.
pub fn move_assets_to_folder(
    assets: &mut Vec<AssetPlacement>,
    entries: &mut Vec<AssetPlacement>,
    asset_ids: &Vec<String>,
    folder_id: Option<&str>,
) -> (r: bool)
    ensures
        r == exists|t: int|
            0 <= t < asset_ids@.len() && asset_moves(
                old(assets)@,
                #[trigger] views(asset_ids@)[t],
                opt_str_view(folder_id),
            ),
        moved_list(old(assets)@, old(assets)@, final(assets)@, views(asset_ids@), opt_str_view(folder_id)),
        moved_list(old(assets)@, old(entries)@, final(entries)@, views(asset_ids@), opt_str_view(folder_id)),
{
    let ghost a0 = assets@;
    let ghost e0 = entries@;
    let ghost ids = views(asset_ids@);
    let ghost target = opt_str_view(folder_id);
    let mut changed = false;
    let mut t: usize = 0;
    while t < asset_ids.len()
        invariant
            ids == views(asset_ids@),
            target == opt_str_view(folder_id),
            t <= asset_ids@.len(),
            placement_ids(assets@) == placement_ids(a0),
            placement_ids(entries@) == placement_ids(e0),
            moved_list(a0, a0, assets@, ids.take(t as int), target),
            moved_list(a0, e0, entries@, ids.take(t as int), target),
            changed == exists|u: int| 0 <= u < t && asset_moves(a0, #[trigger] ids[u], target),
        decreases asset_ids@.len() - t,
    {
        let id = asset_ids[t].as_str();
        assert(ids[t as int] == id@);
        let ghost before_a = assets@;
        let ghost before_e = entries@;
        let ghost next = ids.take(t + 1);
        assert(next.len() == t + 1);
        assert forall|u: int| 0 <= u < t implies next[u] == ids.take(t as int)[u] by {}
        assert(next[t as int] == id@);
        let i = position_of_asset(assets, id);
        proof {
            lemma_first_index(placement_ids(a0), id@, 0);
            assert(placement_ids(assets@) == placement_ids(a0));
        }
        let moves = i < assets.len() && !same_folder(&assets[i].folder_id, folder_id);
        proof {
            if i < a0.len() {
                // The first asset with this id is unchanged unless an earlier
                // occurrence of the same id already moved it into the target.
                assert(placement_ids(a0)[i as int] == id@);
                if moved_at(a0, a0, ids.take(t as int), target, i as int) {
                    assert(opt_view(assets@[i as int].folder_id) == target);
                    let u = choose|u: int|
                        0 <= u < t && asset_moves(a0, ids.take(t as int)[u], target) && first_index(
                            placement_ids(a0),
                            ids.take(t as int)[u],
                            0,
                        ) == i;
                    lemma_first_index(placement_ids(a0), ids.take(t as int)[u], 0);
                    assert(ids.take(t as int)[u] == id@);
                } else {
                    assert(assets@[i as int] == a0[i as int]);
                }
            }
        }
        if moves {
            set_folder_at(assets, i, folder_id);
            let j = position_of_asset(entries, id);
            if j < entries.len() {
                set_folder_at(entries, j, folder_id);
            }
            changed = true;
        }
        proof {
            assert(moves ==> asset_moves(a0, id@, target));
            if asset_moves(a0, id@, target) && !moves {
                // An earlier occurrence of the same id already moved it.
                assert(moved_at(a0, a0, ids.take(t as int), target, i as int));
                let u = choose|u: int|
                    0 <= u < t && asset_moves(a0, ids.take(t as int)[u], target) && first_index(
                        placement_ids(a0),
                        ids.take(t as int)[u],
                        0,
                    ) == i;
                lemma_first_index(placement_ids(a0), ids.take(t as int)[u], 0);
                assert(ids.take(t as int)[u] == id@);
                assert(moved_at(a0, e0, ids.take(t as int), target, first_index(placement_ids(e0), id@, 0)));
            }
            assert forall|k: int| 0 <= k < a0.len() implies moved_at(a0, a0, next, target, k) == (
            moved_at(a0, a0, ids.take(t as int), target, k) || (asset_moves(a0, id@, target)
                && first_index(placement_ids(a0), id@, 0) == k)) by {
                if moved_at(a0, a0, next, target, k) {
                    let u = choose|u: int|
                        0 <= u < next.len() && asset_moves(a0, next[u], target) && first_index(
                            placement_ids(a0),
                            next[u],
                            0,
                        ) == k;
                    if u < t {
                        assert(next[u] == ids.take(t as int)[u]);
                    }
                }
                if moved_at(a0, a0, ids.take(t as int), target, k) {
                    let u = choose|u: int|
                        0 <= u < t && asset_moves(a0, ids.take(t as int)[u], target) && first_index(
                            placement_ids(a0),
                            ids.take(t as int)[u],
                            0,
                        ) == k;
                    assert(next[u] == ids.take(t as int)[u]);
                }
            }
            assert forall|k: int| 0 <= k < e0.len() implies moved_at(a0, e0, next, target, k) == (
            moved_at(a0, e0, ids.take(t as int), target, k) || (asset_moves(a0, id@, target)
                && first_index(placement_ids(e0), id@, 0) == k)) by {
                if moved_at(a0, e0, next, target, k) {
                    let u = choose|u: int|
                        0 <= u < next.len() && asset_moves(a0, next[u], target) && first_index(
                            placement_ids(e0),
                            next[u],
                            0,
                        ) == k;
                    if u < t {
                        assert(next[u] == ids.take(t as int)[u]);
                    }
                }
                if moved_at(a0, e0, ids.take(t as int), target, k) {
                    let u = choose|u: int|
                        0 <= u < t && asset_moves(a0, ids.take(t as int)[u], target) && first_index(
                            placement_ids(e0),
                            ids.take(t as int)[u],
                            0,
                        ) == k;
                    assert(next[u] == ids.take(t as int)[u]);
                }
            }
            lemma_first_index(placement_ids(e0), id@, 0);
            if moves && first_index(placement_ids(e0), id@, 0) < e0.len() {
                assert(placement_ids(before_e)[first_index(placement_ids(e0), id@, 0)] == id@);
            }
            assert(changed == exists|u: int| 0 <= u < t + 1 && asset_moves(a0, #[trigger] ids[u], target)) by {
                if exists|u: int| 0 <= u < t + 1 && asset_moves(a0, #[trigger] ids[u], target) {
                    let u = choose|u: int| 0 <= u < t + 1 && asset_moves(a0, #[trigger] ids[u], target);
                    if u < t {
                        assert(exists|u2: int| 0 <= u2 < t && asset_moves(a0, #[trigger] ids[u2], target));
                    }
                }
            }
        }
        t = t + 1;
    }
    assert(ids.take(t as int) =~= ids);
    changed
}

} // verus!
