use vstd::prelude::*;

use crate::model::library::index_views;

verus! {

/// Which edge of a clip a fade applies to.
#[derive(Debug, Clone, Copy, PartialEq, Eq, Structural)]
pub enum FadeEdge {
    Left,
    Right,
}

/// The integer placement of a clip on the timeline: where it starts, how long
/// it runs, its trims and its fade ramps, all in frames.
#[derive(Debug, Clone, Copy, PartialEq, Eq, Structural)]
pub struct ClipTiming {
    pub start_frame: i32,
    pub duration_frames: i32,
    pub trim_start_frame: i32,
    pub trim_end_frame: i32,
    pub fade_in_frames: i32,
    pub fade_out_frames: i32,
}

/// The frame where a clip ends.
pub open spec fn end_of(c: ClipTiming) -> int {
    c.start_frame + c.duration_frames
}

/// Whether the end frame of a clip fits in an `i32`.
pub open spec fn end_fits(c: ClipTiming) -> bool {
    i32::MIN <= end_of(c) <= i32::MAX
}

/// `x` clamped into `[lo, hi]` (for `lo <= hi`).
pub open spec fn clamp_to(x: int, lo: int, hi: int) -> int {
    if x < lo {
        lo
    } else if x > hi {
        hi
    } else {
        x
    }
}

/// Fades clamped to fit the duration: the fade-in into `[0, duration]`, then
/// the fade-out into what is left.
pub open spec fn fades_clamped(c: ClipTiming) -> ClipTiming {
    let fin = clamp_to(c.fade_in_frames as int, 0, c.duration_frames as int);
    ClipTiming {
        fade_in_frames: fin as i32,
        fade_out_frames: clamp_to(c.fade_out_frames as int, 0, c.duration_frames - fin) as i32,
        ..c
    }
}

/// The fades fit the clip: neither is negative and together they do not
/// exceed its duration.
pub open spec fn fades_fit(c: ClipTiming) -> bool {
    0 <= c.fade_in_frames && 0 <= c.fade_out_frames && c.fade_in_frames + c.fade_out_frames
        <= c.duration_frames
}

fn clamp_i32(x: i32, lo: i32, hi: i32) -> (r: i32)
    requires
        lo <= hi,
    ensures
        r == clamp_to(x as int, lo as int, hi as int),
{
    if x < lo {
        lo
    } else if x > hi {
        hi
    } else {
        x
    }
}

impl ClipTiming {
    /// A clip at `start_frame` running `duration_frames`, untrimmed, no fades.
    pub fn new(start_frame: i32, duration_frames: i32) -> (r: Self)
        ensures
            r == (ClipTiming {
                start_frame,
                duration_frames,
                trim_start_frame: 0,
                trim_end_frame: 0,
                fade_in_frames: 0,
                fade_out_frames: 0,
            }),
    {
        ClipTiming {
            start_frame,
            duration_frames,
            trim_start_frame: 0,
            trim_end_frame: 0,
            fade_in_frames: 0,
            fade_out_frames: 0,
        }
    }

    /// The frame where the clip ends: `start_frame + duration_frames`.
    pub fn end_frame(&self) -> (r: i32)
        requires
            end_fits(*self),
        ensures
            r == end_of(*self),
    {
        self.start_frame + self.duration_frames
    }

    /// Whether `frame` lies in `[start_frame, end_frame)`.
    pub fn contains(&self, frame: i32) -> (r: bool)
        requires
            end_fits(*self),
        ensures
            r == (self.start_frame <= frame && frame < end_of(*self)),
    {
        frame >= self.start_frame && frame < self.end_frame()
    }

    /// Clamps the fade-in into `[0, duration]` and then the fade-out into what
    /// is left, so head and tail never exceed the duration.
    pub fn clamp_fades_to_duration(&mut self)
        requires
            old(self).duration_frames >= 0,
        ensures
            *final(self) == fades_clamped(*old(self)),
            fades_fit(*final(self)),
    {
        self.fade_in_frames = clamp_i32(self.fade_in_frames, 0, self.duration_frames);
        self.fade_out_frames = clamp_i32(
            self.fade_out_frames,
            0,
            self.duration_frames - self.fade_in_frames,
        );
    }

    /// Sets the fade of one edge (a negative length counts as 0), then clamps
    /// both fades to fit.
    pub fn set_fade(&mut self, edge: FadeEdge, frames: i32)
        requires
            old(self).duration_frames >= 0,
        ensures
            *final(self) == fades_clamped(
                match edge {
                    FadeEdge::Left => ClipTiming {
                        fade_in_frames: if frames < 0 {
                            0
                        } else {
                            frames
                        },
                        ..*old(self)
                    },
                    FadeEdge::Right => ClipTiming {
                        fade_out_frames: if frames < 0 {
                            0
                        } else {
                            frames
                        },
                        ..*old(self)
                    },
                },
            ),
    {
        let v = if frames < 0 {
            0
        } else {
            frames
        };
        match edge {
            FadeEdge::Left => self.fade_in_frames = v,
            FadeEdge::Right => self.fade_out_frames = v,
        }
        self.clamp_fades_to_duration();
    }

    /// Sets the duration and clamps the fades to fit it.
    pub fn set_duration(&mut self, new_duration: i32)
        requires
            new_duration >= 0,
        ensures
            *final(self) == fades_clamped(ClipTiming { duration_frames: new_duration, ..*old(self) }),
    {
        self.duration_frames = new_duration;
        self.clamp_fades_to_duration();
    }
}

/// Clamping fades that already fit changes nothing, so the clamp is
/// idempotent.
pub proof fn law_fade_clamp_idempotent(c: ClipTiming)
    requires
        c.duration_frames >= 0,
    ensures
        fades_fit(fades_clamped(c)),
        fades_fit(c) ==> fades_clamped(c) == c,
        fades_clamped(fades_clamped(c)) == fades_clamped(c),
{
}

/// The frame where the last clip of a track ends, or 0 for an empty track.
pub open spec fn track_end(clips: Seq<ClipTiming>) -> int
    decreases clips.len(),
{
    if clips.len() == 0 {
        0
    } else {
        let rest = track_end(clips.drop_last());
        if clips.len() == 1 || end_of(clips.last()) > rest {
            end_of(clips.last())
        } else {
            rest
        }
    }
}

/// Clip `j` comes after clip `i` in start order (ties kept in list order) yet
/// starts before `i` ends.
pub open spec fn overlaps_after(clips: Seq<ClipTiming>, i: int, j: int) -> bool {
    &&& i != j
    &&& (clips[i].start_frame < clips[j].start_frame || (clips[i].start_frame
        == clips[j].start_frame && i < j))
    &&& clips[j].start_frame < end_of(clips[i])
}

/// Whether, with the clips ordered by start (ties in list order), some clip
/// starts before the one ordered before it ends.
pub open spec fn spec_has_overlap(clips: Seq<ClipTiming>) -> bool {
    exists|i: int, j: int|
        0 <= i < clips.len() && 0 <= j < clips.len() && #[trigger] overlaps_after(clips, i, j)
}

/// The frame where the last clip ends (`max` of the clips' end frames), or 0
/// when there is no clip.
pub fn track_end_frame(clips: &[ClipTiming]) -> (r: i32)
    requires
        forall|k: int| 0 <= k < clips@.len() ==> end_fits(#[trigger] clips@[k]),
    ensures
        r == track_end(clips@),
{
    let mut best: i32 = 0;
    let mut k: usize = 0;
    while k < clips.len()
        invariant
            k <= clips@.len(),
            forall|j: int| 0 <= j < clips@.len() ==> end_fits(#[trigger] clips@[j]),
            best == track_end(clips@.take(k as int)),
        decreases clips@.len() - k,
    {
        let e = clips[k].end_frame();
        assert(clips@.take(k + 1).drop_last() =~= clips@.take(k as int));
        if k == 0 || e > best {
            best = e;
        }
        k = k + 1;
    }
    assert(clips@.take(k as int) =~= clips@);
    best
}

/// Whether two clips overlap once ordered by start frame (ties in list
/// order): some clip starts before the clip ordered right before it ends.
pub fn has_overlap(clips: &[ClipTiming]) -> (r: bool)
    requires
        forall|k: int| 0 <= k < clips@.len() ==> end_fits(#[trigger] clips@[k]),
    ensures
        r == spec_has_overlap(clips@),
{
    let n = clips.len();
    let mut i: usize = 0;
    while i < n
        invariant
            n == clips@.len(),
            i <= n,
            forall|k: int| 0 <= k < clips@.len() ==> end_fits(#[trigger] clips@[k]),
            forall|a: int, b: int| 0 <= a < i && 0 <= b < n ==> !#[trigger] overlaps_after(clips@, a, b),
        decreases n - i,
    {
        let e = clips[i].end_frame();
        let mut j: usize = 0;
        while j < n
            invariant
                n == clips@.len(),
                i < n,
                j <= n,
                e == end_of(clips@[i as int]),
                forall|a: int, b: int| 0 <= a < i && 0 <= b < n ==> !#[trigger] overlaps_after(clips@, a, b),
                forall|b: int| 0 <= b < j ==> !#[trigger] overlaps_after(clips@, i as int, b),
            decreases n - j,
        {
            let si = clips[i].start_frame;
            let sj = clips[j].start_frame;
            if j != i && (si < sj || (si == sj && i < j)) && sj < e {
                assert(overlaps_after(clips@, i as int, j as int));
                return true;
            }
            j = j + 1;
        }
        i = i + 1;
    }
    false
}

/// Whether any track holds a clip.
pub fn has_any_clip(tracks: &Vec<Vec<ClipTiming>>) -> (r: bool)
    ensures
        r == exists|t: int| 0 <= t < tracks@.len() && #[trigger] tracks@[t]@.len() > 0,
{
    let mut t: usize = 0;
    while t < tracks.len()
        invariant
            t <= tracks@.len(),
            forall|u: int| 0 <= u < t ==> #[trigger] tracks@[u]@.len() == 0,
        decreases tracks@.len() - t,
    {
        if tracks[t].len() > 0 {
            return true;
        }
        t = t + 1;
    }
    false
}

/// The timeline length: the largest track end, or 0 without tracks.
pub open spec fn timeline_end(tracks: Seq<Seq<ClipTiming>>) -> int
    decreases tracks.len(),
{
    if tracks.len() == 0 {
        0
    } else {
        let rest = timeline_end(tracks.drop_last());
        if tracks.len() == 1 || track_end(tracks.last()) > rest {
            track_end(tracks.last())
        } else {
            rest
        }
    }
}

/// The tracks' clips as sequences.
pub open spec fn track_seqs(tracks: Seq<Vec<ClipTiming>>) -> Seq<Seq<ClipTiming>> {
    tracks.map_values(|t: Vec<ClipTiming>| t@)
}

/// Total timeline length in frames: the largest track end frame, or 0 when
/// there is no track.
pub fn total_frames(tracks: &Vec<Vec<ClipTiming>>) -> (r: i32)
    requires
        forall|t: int, k: int|
            0 <= t < tracks@.len() && 0 <= k < tracks@[t]@.len() ==> end_fits(
                #[trigger] tracks@[t]@[k],
            ),
    ensures
        r == timeline_end(track_seqs(tracks@)),
{
    let ghost ts = track_seqs(tracks@);
    let mut best: i32 = 0;
    let mut t: usize = 0;
    while t < tracks.len()
        invariant
            ts == track_seqs(tracks@),
            t <= tracks@.len(),
            forall|u: int, k: int|
                0 <= u < tracks@.len() && 0 <= k < tracks@[u]@.len() ==> end_fits(
                    #[trigger] tracks@[u]@[k],
                ),
            best == timeline_end(ts.take(t as int)),
        decreases tracks@.len() - t,
    {
        let e = track_end_frame(tracks[t].as_slice());
        assert(ts.take(t + 1).drop_last() =~= ts.take(t as int));
        assert(ts[t as int] == tracks@[t as int]@);
        if t == 0 || e > best {
            best = e;
        }
        t = t + 1;
    }
    assert(ts.take(t as int) =~= ts);
    best
}


// ---------------------------------------------------------------------------
// Ordering clips by start
// ---------------------------------------------------------------------------

/// Positions kept in order of their clip's start frame, stably: a position
/// goes after every earlier one that does not start later.
pub open spec fn insert_by_start(sorted: Seq<int>, p: int, clips: Seq<ClipTiming>) -> Seq<int>
    decreases sorted.len(),
{
    if sorted.len() == 0 {
        seq![p]
    } else if clips[sorted.last()].start_frame <= clips[p].start_frame {
        sorted.push(p)
    } else {
        insert_by_start(sorted.drop_last(), p, clips).push(sorted.last())
    }
}

/// The first `n` positions stably sorted by start frame.
pub open spec fn by_start(n: nat, clips: Seq<ClipTiming>) -> Seq<int>
    decreases n,
{
    if n == 0 {
        Seq::empty()
    } else {
        insert_by_start(by_start((n - 1) as nat, clips), n - 1, clips)
    }
}

/// Whether positions are in ascending start-frame order.
pub open spec fn start_sorted(ps: Seq<int>, clips: Seq<ClipTiming>) -> bool {
    forall|i: int, j: int| 0 <= i < j < ps.len() ==> clips[#[trigger] ps[i]].start_frame <= clips[#[trigger] ps[j]].start_frame
}

/// The positions `0..n`.
pub open spec fn positions(n: nat) -> Seq<int> {
    Seq::new(n, |k: int| k)
}

proof fn lemma_insert_by_start(sorted: Seq<int>, p: int, clips: Seq<ClipTiming>)
    requires
        start_sorted(sorted, clips),
    ensures
        start_sorted(insert_by_start(sorted, p, clips), clips),
        insert_by_start(sorted, p, clips).to_multiset() == sorted.to_multiset().insert(p),
    decreases sorted.len(),
{
    broadcast use vstd::seq_lib::group_to_multiset_ensures;

    if sorted.len() == 0 {
        assert(seq![p] =~= Seq::<int>::empty().push(p));
    } else if clips[sorted.last()].start_frame <= clips[p].start_frame {
    } else {
        let d = sorted.drop_last();
        let last = sorted.last();
        assert(start_sorted(d, clips));
        lemma_insert_by_start(d, p, clips);
        let ins = insert_by_start(d, p, clips);
        let r = ins.push(last);
        assert(sorted =~= d.push(last));
        assert forall|i: int, j: int| 0 <= i < j < r.len() implies clips[#[trigger] r[i]].start_frame
            <= clips[#[trigger] r[j]].start_frame by {
            if j == r.len() - 1 {
                assert(ins.to_multiset().count(r[i]) > 0);
                if r[i] != p {
                    assert(d.to_multiset().count(r[i]) > 0);
                    assert(d.contains(r[i]));
                    let k = choose|k: int| 0 <= k < d.len() && d[k] == r[i];
                    assert(sorted[k] == d[k]);
                }
            }
        }
    }
}

/// Ordering clips by start lists every clip exactly once, earliest start
/// first.
pub proof fn law_start_order_sorts(n: nat, clips: Seq<ClipTiming>)
    ensures
        start_sorted(by_start(n, clips), clips),
        by_start(n, clips).to_multiset() == positions(n).to_multiset(),
    decreases n,
{
    broadcast use vstd::seq_lib::group_to_multiset_ensures;

    if n > 0 {
        law_start_order_sorts((n - 1) as nat, clips);
        lemma_insert_by_start(by_start((n - 1) as nat, clips), n - 1, clips);
        assert(positions(n) =~= positions((n - 1) as nat).push(n - 1));
    } else {
        assert(positions(n) =~= Seq::<int>::empty());
    }
}

/// The order that sorts clips by start frame, stably: the clip positions,
/// earliest start first, equal starts in list order.
pub fn start_order(clips: &[ClipTiming]) -> (r: Vec<usize>)
    ensures
        index_views(r@) == by_start(clips@.len(), clips@),
{
    let ghost cs = clips@;
    let mut sorted: Vec<usize> = Vec::new();
    let mut n: usize = 0;
    while n < clips.len()
        invariant
            cs == clips@,
            n <= cs.len(),
            index_views(sorted@) == by_start(n as nat, cs),
            forall|k: int| 0 <= k < sorted@.len() ==> (#[trigger] sorted@[k]) < n,
        decreases cs.len() - n,
    {
        let ghost s0 = index_views(sorted@);
        let mut at = sorted.len();
        assert(s0.take(at as int) =~= s0);
        assert(s0.take(at as int) + s0.skip(at as int) =~= s0);
        while at > 0 && clips[sorted[at - 1]].start_frame > clips[n].start_frame
            invariant
                cs == clips@,
                n < cs.len(),
                at <= sorted@.len(),
                s0 == index_views(sorted@),
                forall|k: int| 0 <= k < sorted@.len() ==> (#[trigger] sorted@[k]) < n,
                insert_by_start(s0, n as int, cs) == insert_by_start(s0.take(at as int), n as int, cs) + s0.skip(
                    at as int,
                ),
            decreases at,
        {
            proof {
                let t = s0.take(at as int);
                assert(t.last() == s0[at - 1]);
                assert(s0[at - 1] == sorted@[at - 1] as int);
                assert(t.drop_last() =~= s0.take(at - 1));
                assert(s0.skip(at - 1) =~= seq![s0[at - 1]] + s0.skip(at as int));
                assert(insert_by_start(t, n as int, cs) == insert_by_start(s0.take(at - 1), n as int, cs).push(s0[at - 1]));
                assert(insert_by_start(s0.take(at - 1), n as int, cs).push(s0[at - 1]) + s0.skip(at as int)
                    =~= insert_by_start(s0.take(at - 1), n as int, cs) + s0.skip(at - 1));
            }
            at = at - 1;
        }
        proof {
            let t = s0.take(at as int);
            if at > 0 {
                assert(t.last() == s0[at - 1]);
                assert(s0[at - 1] == sorted@[at - 1] as int);
            }
            assert(insert_by_start(t, n as int, cs) =~= t.push(n as int));
        }
        sorted.insert(at, n);
        assert(index_views(sorted@) =~= s0.take(at as int).push(n as int) + s0.skip(at as int));
        n = n + 1;
    }
    sorted
}

} // verus!
