use vstd::prelude::*;

use crate::model::interpolation::Interpolation;

verus! {

/// Absolute timeline frame of a clip-relative keyframe offset: `start_frame + offset`.
pub fn to_abs(offset: i32, start_frame: i32) -> (r: i32)
    requires
        i32::MIN <= start_frame + offset <= i32::MAX,
    ensures
        r == start_frame + offset,
{
    start_frame + offset
}

/// Clip-relative keyframe offset of an absolute timeline frame: `timeline_frame - start_frame`.
pub fn to_offset(timeline_frame: i32, start_frame: i32) -> (r: i32)
    requires
        i32::MIN <= timeline_frame - start_frame <= i32::MAX,
    ensures
        r == timeline_frame - start_frame,
{
    timeline_frame - start_frame
}

/// Converting an offset to an absolute frame and back gives the offset again.
pub proof fn law_abs_offset_inverse(offset: int, start_frame: int)
    ensures
        (start_frame + offset) - start_frame == offset,
        start_frame + (offset - start_frame) == offset,
{
}

/// A value at a clip-relative frame, with the interpolation of the segment that
/// leaves this keyframe toward the next one.
#[derive(Debug, Clone, Copy, PartialEq)]
pub struct Keyframe<V> {
    /// Clip-relative frame.
    pub frame: i32,
    /// The keyframed value.
    pub value: V,
    /// Interpolation of the segment leaving this keyframe.
    pub interpolation_out: Interpolation,
}

impl<V> Keyframe<V> {
    /// A keyframe with the default (`Smooth`) interpolation.
    pub fn new(frame: i32, value: V) -> (r: Self)
        ensures
            r.frame == frame,
            r.value == value,
            r.interpolation_out == Interpolation::Smooth,
    {
        Keyframe { frame, value, interpolation_out: Interpolation::Smooth }
    }

    /// A keyframe with an explicit interpolation.
    pub fn with_interpolation(frame: i32, value: V, interpolation_out: Interpolation) -> (r: Self)
        ensures
            r.frame == frame,
            r.value == value,
            r.interpolation_out == interpolation_out,
    {
        Keyframe { frame, value, interpolation_out }
    }
}

/// Keyframes strictly ordered by frame (so no two share a frame).
pub open spec fn well_formed<V>(s: Seq<Keyframe<V>>) -> bool {
    forall|i: int, j: int| 0 <= i < j < s.len() ==> s[i].frame < s[j].frame
}

/// Index of the first keyframe at or after `i` whose frame is `f`; `s.len()` if none.
pub open spec fn first_at_frame<V>(s: Seq<Keyframe<V>>, f: i32, i: int) -> int
    decreases s.len() - i,
{
    if i < 0 || i >= s.len() {
        s.len() as int
    } else if s[i].frame == f {
        i
    } else {
        first_at_frame(s, f, i + 1)
    }
}

/// Index of the first keyframe at or after `i` whose frame is greater than `f`;
/// `s.len()` if none.
pub open spec fn first_after_frame<V>(s: Seq<Keyframe<V>>, f: int, i: int) -> int
    decreases s.len() - i,
{
    if i < 0 || i >= s.len() {
        s.len() as int
    } else if s[i].frame > f {
        i
    } else {
        first_after_frame(s, f, i + 1)
    }
}

/// Whether some keyframe sits at frame `f`.
pub open spec fn has_frame<V>(s: Seq<Keyframe<V>>, f: i32) -> bool {
    first_at_frame(s, f, 0) < s.len()
}

/// Insert-or-replace: the first keyframe at `kf.frame` is replaced; otherwise `kf`
/// is inserted before the first keyframe with a greater frame.
pub open spec fn spec_upsert<V>(s: Seq<Keyframe<V>>, kf: Keyframe<V>) -> Seq<Keyframe<V>> {
    let i = first_at_frame(s, kf.frame, 0);
    if i < s.len() {
        s.update(i, kf)
    } else {
        s.insert(first_after_frame(s, kf.frame as int, 0), kf)
    }
}

/// Upserting every keyframe of `kfs`, in order, into `acc`.
pub open spec fn upsert_all<V>(acc: Seq<Keyframe<V>>, kfs: Seq<Keyframe<V>>) -> Seq<Keyframe<V>>
    decreases kfs.len(),
{
    if kfs.len() == 0 {
        acc
    } else {
        spec_upsert(upsert_all(acc, kfs.drop_last()), kfs.last())
    }
}

/// The keyframes not at frame `f`, in order.
pub open spec fn without_frame<V>(s: Seq<Keyframe<V>>, f: i32) -> Seq<Keyframe<V>> {
    s.filter(|k: Keyframe<V>| k.frame != f)
}

/// The keyframes whose frame lies in `[0, duration]`, in order.
pub open spec fn within_duration<V>(s: Seq<Keyframe<V>>, duration: i32) -> Seq<Keyframe<V>> {
    s.filter(|k: Keyframe<V>| 0 <= k.frame && k.frame <= duration)
}

/// The keyframes in `[0, duration]`, upserted one by one into an empty track.
pub open spec fn spec_clamped<V>(s: Seq<Keyframe<V>>, duration: i32) -> Seq<Keyframe<V>> {
    upsert_all(Seq::empty(), within_duration(s, duration))
}

/// The keyframe sequence after moving the keyframe at `old_frame` to `new_frame`:
/// unchanged when nothing sits at `old_frame`, or when `new_frame` is a different,
/// occupied frame; otherwise the keyframe is taken out and upserted at `new_frame`.
pub open spec fn spec_move<V>(s: Seq<Keyframe<V>>, old_frame: i32, new_frame: i32) -> Seq<Keyframe<V>> {
    let i = first_at_frame(s, old_frame, 0);
    if i >= s.len() {
        s
    } else if new_frame != old_frame && has_frame(s, new_frame) {
        s
    } else {
        spec_upsert(s.remove(i), Keyframe { frame: new_frame, ..s[i] })
    }
}

/// Where sampling a track at a frame lands.
#[derive(Debug, Clone, Copy, PartialEq, Eq, Structural)]
pub enum KeyframeSample {
    /// The track is empty: the caller's fallback value.
    Fallback,
    /// Exactly the value of the keyframe at this index.
    Key(usize),
    /// Between keyframe `from` and keyframe `to`, `offset` frames past `from`
    /// out of `span`; `smooth` selects smoothstep easing over a linear ramp.
    Between { from: usize, to: usize, offset: i64, span: i64, smooth: bool },
}

/// The sampling rule: empty → fallback; one keyframe → it; at or before the first
/// keyframe → the first; at or after the last → the last; otherwise the segment
/// `[a, b]` around the frame, switched on `a`'s interpolation (hold → `a`).
pub open spec fn spec_sample_point<V>(s: Seq<Keyframe<V>>, frame: i32) -> KeyframeSample {
    if s.len() == 0 {
        KeyframeSample::Fallback
    } else if s.len() == 1 {
        KeyframeSample::Key(0)
    } else if frame <= s[0].frame {
        KeyframeSample::Key(0)
    } else if frame >= s.last().frame {
        KeyframeSample::Key((s.len() - 1) as usize)
    } else {
        let b = first_after_frame(s, frame as int, 0);
        if b >= s.len() {
            KeyframeSample::Key((s.len() - 1) as usize)
        } else {
            let a = b - 1;
            match s[a].interpolation_out {
                Interpolation::Hold => KeyframeSample::Key(a as usize),
                Interpolation::Linear => KeyframeSample::Between {
                    from: a as usize,
                    to: b as usize,
                    offset: (frame - s[a].frame) as i64,
                    span: (s[b].frame - s[a].frame) as i64,
                    smooth: false,
                },
                Interpolation::Smooth => KeyframeSample::Between {
                    from: a as usize,
                    to: b as usize,
                    offset: (frame - s[a].frame) as i64,
                    span: (s[b].frame - s[a].frame) as i64,
                    smooth: true,
                },
            }
        }
    }
}

proof fn lemma_first_at_frame<V>(s: Seq<Keyframe<V>>, f: i32, i: int)
    requires
        0 <= i <= s.len(),
    ensures
        i <= first_at_frame(s, f, i) <= s.len(),
        forall|j: int| i <= j < first_at_frame(s, f, i) ==> s[j].frame != f,
        first_at_frame(s, f, i) < s.len() ==> s[first_at_frame(s, f, i)].frame == f,
    decreases s.len() - i,
{
    if i < s.len() && s[i].frame != f {
        lemma_first_at_frame(s, f, i + 1);
    }
}

proof fn lemma_first_after_frame<V>(s: Seq<Keyframe<V>>, f: int, i: int)
    requires
        0 <= i <= s.len(),
    ensures
        i <= first_after_frame(s, f, i) <= s.len(),
        forall|j: int| i <= j < first_after_frame(s, f, i) ==> s[j].frame <= f,
        first_after_frame(s, f, i) < s.len() ==> s[first_after_frame(s, f, i)].frame > f,
    decreases s.len() - i,
{
    if i < s.len() && !(s[i].frame > f) {
        lemma_first_after_frame(s, f, i + 1);
    }
}

/// In a well-formed track, a keyframe at frame `f` is the one found by
/// `first_at_frame`, and no keyframe sits at `f` when none is found.
proof fn lemma_well_formed_lookup<V>(s: Seq<Keyframe<V>>, f: i32)
    requires
        well_formed(s),
    ensures
        forall|j: int| 0 <= j < s.len() && s[j].frame == f ==> j == first_at_frame(s, f, 0),
{
    lemma_first_at_frame(s, f, 0);
}

/// An ordered list of keyframes for one animatable property.
#[derive(Debug, Clone, PartialEq)]
pub struct KeyframeTrack<V> {
    pub keyframes: Vec<Keyframe<V>>,
}

impl<V: Copy> KeyframeTrack<V> {
    /// An empty track.
    pub fn new() -> (r: Self)
        ensures
            r.keyframes@ == Seq::<Keyframe<V>>::empty(),
    {
        KeyframeTrack { keyframes: Vec::new() }
    }

    /// A track is active when it holds at least one keyframe.
    pub fn is_active(&self) -> (r: bool)
        ensures
            r == (self.keyframes@.len() > 0),
    {
        self.keyframes.len() > 0
    }

    /// Index of the first keyframe at frame `f`, or the length if there is none.
    fn position_at(&self, f: i32) -> (r: usize)
        ensures
            r == first_at_frame(self.keyframes@, f, 0),
    {
        let n = self.keyframes.len();
        let mut i: usize = 0;
        while i < n
            invariant
                n == self.keyframes@.len(),
                i <= n,
                first_at_frame(self.keyframes@, f, 0) == first_at_frame(self.keyframes@, f, i as int),
            decreases n - i,
        {
            if self.keyframes[i].frame == f {
                return i;
            }
            i = i + 1;
        }
        i
    }

    /// Index of the first keyframe with a frame greater than `f`, or the length.
    fn position_after(&self, f: i32) -> (r: usize)
        ensures
            r == first_after_frame(self.keyframes@, f as int, 0),
    {
        let n = self.keyframes.len();
        let mut i: usize = 0;
        while i < n
            invariant
                n == self.keyframes@.len(),
                i <= n,
                first_after_frame(self.keyframes@, f as int, 0) == first_after_frame(
                    self.keyframes@,
                    f as int,
                    i as int,
                ),
            decreases n - i,
        {
            if self.keyframes[i].frame > f {
                return i;
            }
            i = i + 1;
        }
        i
    }

    /// Insert or replace the keyframe at `kf.frame`: an existing keyframe at that
    /// frame is overwritten, else `kf` goes before the first later keyframe.
    pub fn upsert(&mut self, kf: Keyframe<V>)
        ensures
            final(self).keyframes@ == spec_upsert(old(self).keyframes@, kf),
    {
        let i = self.position_at(kf.frame);
        if i < self.keyframes.len() {
            self.keyframes.set(i, kf);
        } else {
            let at = self.position_after(kf.frame);
            proof {
                lemma_first_after_frame(self.keyframes@, kf.frame as int, 0);
            }
            self.keyframes.insert(at, kf);
        }
    }

    /// Remove every keyframe at `frame`.
    pub fn remove(&mut self, frame: i32)
        ensures
            final(self).keyframes@ == without_frame(old(self).keyframes@, frame),
    {
        let ghost s = self.keyframes@;
        let n = self.keyframes.len();
        let mut kept: Vec<Keyframe<V>> = Vec::new();
        let mut i: usize = 0;
        while i < n
            invariant
                s == self.keyframes@,
                n == s.len(),
                i <= n,
                kept@ == without_frame(s.take(i as int), frame),
            decreases n - i,
        {
            let k = self.keyframes[i];
            proof {
                assert(s.take(i + 1).drop_last() =~= s.take(i as int));
                reveal_with_fuel(Seq::filter, 1);
            }
            if k.frame != frame {
                kept.push(k);
            }
            i = i + 1;
        }
        proof {
            assert(s.take(n as int) =~= s);
        }
        self.keyframes = kept;
    }

    /// Move the keyframe at `old_frame` to `new_frame`. A no-op when no keyframe
    /// sits at `old_frame`, or when `new_frame` differs and is already occupied.
    pub fn move_keyframe(&mut self, old_frame: i32, new_frame: i32)
        ensures
            final(self).keyframes@ == spec_move(old(self).keyframes@, old_frame, new_frame),
    {
        let i = self.position_at(old_frame);
        if i >= self.keyframes.len() {
            return;
        }
        if new_frame != old_frame && self.position_at(new_frame) < self.keyframes.len() {
            return;
        }
        let mut kf = self.keyframes.remove(i);
        kf.frame = new_frame;
        self.upsert(kf);
    }

    /// Where sampling at clip-relative `frame` lands (see [`KeyframeSample`]).
    pub fn sample_point(&self, frame: i32) -> (r: KeyframeSample)
        ensures
            r == spec_sample_point(self.keyframes@, frame),
    {
        let n = self.keyframes.len();
        if n == 0 {
            return KeyframeSample::Fallback;
        }
        if n == 1 {
            return KeyframeSample::Key(0);
        }
        if frame <= self.keyframes[0].frame {
            return KeyframeSample::Key(0);
        }
        if frame >= self.keyframes[n - 1].frame {
            return KeyframeSample::Key(n - 1);
        }
        let b = self.position_after(frame);
        if b >= n {
            return KeyframeSample::Key(n - 1);
        }
        proof {
            lemma_first_after_frame(self.keyframes@, frame as int, 0);
        }
        let a = b - 1;
        let ka = self.keyframes[a];
        let kb = self.keyframes[b];
        let offset = frame as i64 - ka.frame as i64;
        let span = kb.frame as i64 - ka.frame as i64;
        match ka.interpolation_out {
            Interpolation::Hold => KeyframeSample::Key(a),
            Interpolation::Linear => KeyframeSample::Between {
                from: a,
                to: b,
                offset,
                span,
                smooth: false,
            },
            Interpolation::Smooth => KeyframeSample::Between {
                from: a,
                to: b,
                offset,
                span,
                smooth: true,
            },
        }
    }

    /// Sample the track at clip-relative `frame`: `fallback` when empty, a
    /// keyframe's own value at or outside the ends and on hold segments, and
    /// otherwise `interpolate(a, b, offset, span, smooth)` over the segment.
    pub fn sample<F: Fn(V, V, i64, i64, bool) -> V>(&self, frame: i32, fallback: V, interpolate: F) -> (r: V)
        requires
            forall|a: V, b: V, o: i64, s: i64, m: bool| interpolate.requires((a, b, o, s, m)),
        ensures
            match spec_sample_point(self.keyframes@, frame) {
                KeyframeSample::Fallback => r == fallback,
                KeyframeSample::Key(i) => r == self.keyframes@[i as int].value,
                KeyframeSample::Between { from, to, offset, span, smooth } => interpolate.ensures(
                    (
                        self.keyframes@[from as int].value,
                        self.keyframes@[to as int].value,
                        offset,
                        span,
                        smooth,
                    ),
                    r,
                ),
            },
    {
        let p = self.sample_point(frame);
        proof {
            lemma_first_after_frame(self.keyframes@, frame as int, 0);
        }
        match p {
            KeyframeSample::Fallback => fallback,
            KeyframeSample::Key(i) => self.keyframes[i].value,
            KeyframeSample::Between { from, to, offset, span, smooth } => interpolate(
                self.keyframes[from].value,
                self.keyframes[to].value,
                offset,
                span,
                smooth,
            ),
        }
    }

    /// Keep only keyframes in `[0, duration]` (re-upserted in order); `None` when
    /// none remain.
    pub fn clamp_to_duration(self, duration: i32) -> (r: Option<Self>)
        ensures
            r is None <==> spec_clamped(self.keyframes@, duration).len() == 0,
            r is Some ==> r->0.keyframes@ == spec_clamped(self.keyframes@, duration),
    {
        let ghost s = self.keyframes@;
        let n = self.keyframes.len();
        let mut normalized: KeyframeTrack<V> = KeyframeTrack::new();
        let mut i: usize = 0;
        while i < n
            invariant
                s == self.keyframes@,
                n == s.len(),
                i <= n,
                normalized.keyframes@ == upsert_all(
                    Seq::empty(),
                    within_duration(s.take(i as int), duration),
                ),
            decreases n - i,
        {
            let kf = self.keyframes[i];
            proof {
                assert(s.take(i + 1).drop_last() =~= s.take(i as int));
                reveal_with_fuel(Seq::filter, 1);
                assert(within_duration(s.take(i + 1), duration) == if 0 <= kf.frame
                    && kf.frame <= duration {
                    within_duration(s.take(i as int), duration).push(kf)
                } else {
                    within_duration(s.take(i as int), duration)
                });
            }
            if kf.frame >= 0 && kf.frame <= duration {
                proof {
                    let w = within_duration(s.take(i as int), duration);
                    assert(w.push(kf).drop_last() =~= w);
                }
                normalized.upsert(kf);
            }
            i = i + 1;
        }
        proof {
            assert(s.take(n as int) =~= s);
        }
        if normalized.keyframes.len() == 0 {
            None
        } else {
            Some(normalized)
        }
    }
}


/// Upsert keeps a well-formed track well-formed (strictly ordered, unique frames).
pub proof fn law_upsert_preserves_well_formed<V>(s: Seq<Keyframe<V>>, kf: Keyframe<V>)
    requires
        well_formed(s),
    ensures
        well_formed(spec_upsert(s, kf)),
{
    lemma_first_at_frame(s, kf.frame, 0);
    lemma_first_after_frame(s, kf.frame as int, 0);
    let i = first_at_frame(s, kf.frame, 0);
    let r = spec_upsert(s, kf);
    if i < s.len() {
        assert forall|a: int, b: int| 0 <= a < b < r.len() implies r[a].frame < r[b].frame by {
            assert(r[a].frame == s[a].frame);
            assert(r[b].frame == s[b].frame);
        }
    } else {
        let g = first_after_frame(s, kf.frame as int, 0);
        assert forall|a: int, b: int| 0 <= a < b < r.len() implies r[a].frame < r[b].frame by {
            if b < g {
            } else if b == g {
                assert(s[a].frame != kf.frame);
            } else if a < g {
                assert(s[a].frame != kf.frame);
                assert(s[g].frame > kf.frame);
                assert(s[b - 1].frame >= s[g].frame);
            } else if a == g {
                assert(s[b - 1].frame >= s[g].frame);
            } else {
            }
        }
    }
}

/// In a well-formed track, after an upsert the track holds `kf` and, besides it,
/// exactly the keyframes it held at other frames: a read at `kf.frame` gives back
/// what was written, and every other frame is untouched.
pub proof fn law_upsert_contents<V>(s: Seq<Keyframe<V>>, kf: Keyframe<V>, x: Keyframe<V>)
    requires
        well_formed(s),
    ensures
        spec_upsert(s, kf).contains(x) <==> (x == kf || (s.contains(x) && x.frame != kf.frame)),
        spec_upsert(s, kf).len() == s.len() + (if has_frame(s, kf.frame) { 0int } else { 1 }),
{
    lemma_first_at_frame(s, kf.frame, 0);
    lemma_first_after_frame(s, kf.frame as int, 0);
    lemma_well_formed_lookup(s, kf.frame);
    let i = first_at_frame(s, kf.frame, 0);
    if i < s.len() {
        lemma_update_contains(s, i, kf, x);
    } else {
        lemma_insert_contains(s, first_after_frame(s, kf.frame as int, 0), kf, x);
    }
}

proof fn lemma_update_contains<V>(s: Seq<Keyframe<V>>, i: int, kf: Keyframe<V>, x: Keyframe<V>)
    requires
        0 <= i < s.len(),
        s[i].frame == kf.frame,
        forall|j: int| 0 <= j < s.len() && s[j].frame == kf.frame ==> j == i,
    ensures
        s.update(i, kf).contains(x) <==> (x == kf || (s.contains(x) && x.frame != kf.frame)),
{
    let r = s.update(i, kf);
    if r.contains(x) {
        let k = choose|k: int| 0 <= k < r.len() && r[k] == x;
        if k != i {
            assert(s[k] == x);
        }
    }
    if x == kf {
        assert(r[i] == x);
    } else if s.contains(x) && x.frame != kf.frame {
        let k = choose|k: int| 0 <= k < s.len() && s[k] == x;
        assert(r[k] == x);
    }
}

proof fn lemma_insert_contains<V>(s: Seq<Keyframe<V>>, g: int, kf: Keyframe<V>, x: Keyframe<V>)
    requires
        0 <= g <= s.len(),
        forall|j: int| 0 <= j < s.len() ==> s[j].frame != kf.frame,
    ensures
        s.insert(g, kf).contains(x) <==> (x == kf || (s.contains(x) && x.frame != kf.frame)),
{
    let r = s.insert(g, kf);
    if r.contains(x) {
        let k = choose|k: int| 0 <= k < r.len() && r[k] == x;
        if k < g {
            assert(s[k] == x);
        } else if k > g {
            assert(s[k - 1] == x);
        }
    }
    if x == kf {
        assert(r[g] == x);
    } else if s.contains(x) && x.frame != kf.frame {
        let k = choose|k: int| 0 <= k < s.len() && s[k] == x;
        if k < g {
            assert(r[k] == x);
        } else {
            assert(r[k + 1] == x);
        }
    }
}

proof fn lemma_filter_contains<V>(s: Seq<Keyframe<V>>, pred: spec_fn(Keyframe<V>) -> bool, x: Keyframe<V>)
    ensures
        s.filter(pred).contains(x) <==> (s.contains(x) && pred(x)),
{
    broadcast use vstd::seq_lib::group_filter_ensures;

    if s.contains(x) && pred(x) {
        let k = choose|k: int| 0 <= k < s.len() && s[k] == x;
        s.lemma_filter_contains(pred, k);
    }
    if s.filter(pred).contains(x) {
        let k = choose|k: int| 0 <= k < s.filter(pred).len() && s.filter(pred)[k] == x;
        s.lemma_filter_pred(pred, k);
        s.lemma_filter_contains_rev(pred, x);
    }
}

/// Removing a frame keeps a well-formed track well-formed and takes out exactly
/// the keyframes at that frame.
pub proof fn law_remove<V>(s: Seq<Keyframe<V>>, f: i32, x: Keyframe<V>)
    requires
        well_formed(s),
    ensures
        well_formed(without_frame(s, f)),
        without_frame(s, f).contains(x) <==> (s.contains(x) && x.frame != f),
{
    let pred = |k: Keyframe<V>| k.frame != f;
    lemma_filter_contains(s, pred, x);
    lemma_filter_sorted(s, pred);
}

/// A filter of a well-formed sequence is well-formed.
proof fn lemma_filter_sorted<V>(s: Seq<Keyframe<V>>, pred: spec_fn(Keyframe<V>) -> bool)
    requires
        well_formed(s),
    ensures
        well_formed(s.filter(pred)),
    decreases s.len(),
{
    reveal_with_fuel(Seq::filter, 1);
    if s.len() > 0 {
        let p = s.drop_last();
        assert(well_formed(p));
        lemma_filter_sorted(p, pred);
        if pred(s.last()) {
            let fp = p.filter(pred);
            assert forall|i: int| 0 <= i < fp.len() implies fp[i].frame < s.last().frame by {
                assert(fp.contains(fp[i]));
                lemma_filter_contains(p, pred, fp[i]);
                let k = choose|k: int| 0 <= k < p.len() && p[k] == fp[i];
                assert(s[k] == p[k]);
            }
        }
    }
}

/// Upserting a keyframe at a frame the track did not hold, then removing that
/// frame, gives back the track it started from.
pub proof fn law_remove_undoes_upsert<V>(s: Seq<Keyframe<V>>, kf: Keyframe<V>)
    requires
        well_formed(s),
        !has_frame(s, kf.frame),
    ensures
        without_frame(spec_upsert(s, kf), kf.frame) == s,
{
    lemma_first_at_frame(s, kf.frame, 0);
    lemma_first_after_frame(s, kf.frame as int, 0);
    let g = first_after_frame(s, kf.frame as int, 0);
    let pred = |k: Keyframe<V>| k.frame != kf.frame;
    assert(s.filter(pred) =~= s) by {
        lemma_filter_identity(s, pred);
    }
    let r = s.insert(g, kf);
    assert(r =~= s.take(g) + seq![kf] + s.skip(g));
    vstd::seq_lib::lemma_seq_skip_of_skip(s, 0, 0);
    assert(s =~= s.take(g) + s.skip(g));
    lemma_filter_identity(s.take(g), pred);
    lemma_filter_identity(s.skip(g), pred);
    reveal_with_fuel(Seq::filter, 2);
    assert(seq![kf].filter(pred) =~= Seq::<Keyframe<V>>::empty());
    Seq::filter_distributes_over_add(s.take(g) + seq![kf], s.skip(g), pred);
    Seq::filter_distributes_over_add(s.take(g), seq![kf], pred);
    assert(without_frame(r, kf.frame) =~= s.take(g) + s.skip(g));
}

/// Filtering with a predicate that every element meets changes nothing.
proof fn lemma_filter_identity<V>(s: Seq<Keyframe<V>>, pred: spec_fn(Keyframe<V>) -> bool)
    requires
        forall|i: int| 0 <= i < s.len() ==> pred(#[trigger] s[i]),
    ensures
        s.filter(pred) == s,
    decreases s.len(),
{
    reveal_with_fuel(Seq::filter, 1);
    if s.len() > 0 {
        lemma_filter_identity(s.drop_last(), pred);
        assert(s.drop_last().push(s.last()) =~= s);
    }
}

/// Moving a keyframe keeps a well-formed track well-formed.
pub proof fn law_move_preserves_well_formed<V>(s: Seq<Keyframe<V>>, old_frame: i32, new_frame: i32)
    requires
        well_formed(s),
    ensures
        well_formed(spec_move(s, old_frame, new_frame)),
{
    let i = first_at_frame(s, old_frame, 0);
    lemma_first_at_frame(s, old_frame, 0);
    if i < s.len() && !(new_frame != old_frame && has_frame(s, new_frame)) {
        let t = s.remove(i);
        assert(well_formed(t)) by {
            assert forall|a: int, b: int| 0 <= a < b < t.len() implies t[a].frame < t[b].frame by {
                if a < i && b >= i {
                    assert(t[b] == s[b + 1]);
                } else if a >= i {
                    assert(t[a] == s[a + 1]);
                    assert(t[b] == s[b + 1]);
                }
            }
        }
        law_upsert_preserves_well_formed(t, Keyframe { frame: new_frame, ..s[i] });
    }
}

/// A sample that yields keyframe `i`: its own value, or offset zero of the
/// segment leaving it.
pub open spec fn lands_on_key(p: KeyframeSample, i: int) -> bool {
    match p {
        KeyframeSample::Key(k) => k == i,
        KeyframeSample::Between { from, offset, .. } => from == i && offset == 0,
        KeyframeSample::Fallback => false,
    }
}

/// In a well-formed track every sample lands on a real keyframe or strictly
/// within one segment between two neighbouring keyframes; sampling exactly at a
/// keyframe's frame gives that keyframe (directly, or at offset zero of its
/// outgoing segment).
pub proof fn law_sample_point<V>(s: Seq<Keyframe<V>>, frame: i32, i: int)
    requires
        well_formed(s),
        s.len() <= usize::MAX,
    ensures
        spec_sample_point(s, frame) matches KeyframeSample::Key(k) ==> k < s.len(),
        spec_sample_point(s, frame) matches KeyframeSample::Between { from, to, offset, span, .. }
            ==> (to == from + 1 && to < s.len() && 0 <= offset < span && s[from as int].frame <= frame
            < s[to as int].frame),
        0 <= i < s.len() && frame == s[i].frame ==> lands_on_key(spec_sample_point(s, frame), i),
{
    lemma_first_after_frame(s, frame as int, 0);
    if s.len() > 1 && s[0].frame < frame < s.last().frame {
        let b = first_after_frame(s, frame as int, 0);
        assert(s[b].frame > frame);
        assert(b > 0);
        assert(s[b - 1].frame <= frame);
        assert(s[b - 1].frame < s[b].frame);
        if 0 <= i < s.len() && frame == s[i].frame {
            assert(b == i + 1);
        }
    } else if s.len() > 1 && 0 <= i < s.len() && frame == s[i].frame {
        if frame <= s[0].frame {
            assert(i == 0);
        } else {
            assert(i == s.len() - 1);
        }
    }
}

/// Clamping a well-formed track keeps exactly its keyframes inside
/// `[0, duration]`, in order, and the result is again well-formed.
pub proof fn law_clamp_well_formed<V>(s: Seq<Keyframe<V>>, duration: i32)
    requires
        well_formed(s),
    ensures
        spec_clamped(s, duration) == within_duration(s, duration),
        well_formed(spec_clamped(s, duration)),
{
    let w = within_duration(s, duration);
    lemma_filter_sorted(s, |k: Keyframe<V>| 0 <= k.frame && k.frame <= duration);
    lemma_upsert_all_sorted(w);
}

/// Upserting an already well-formed sequence, in order, into an empty track
/// rebuilds that sequence.
proof fn lemma_upsert_all_sorted<V>(w: Seq<Keyframe<V>>)
    requires
        well_formed(w),
    ensures
        upsert_all(Seq::empty(), w) == w,
    decreases w.len(),
{
    if w.len() > 0 {
        let p = w.drop_last();
        let last = w.last();
        assert(well_formed(p));
        lemma_upsert_all_sorted(p);
        lemma_first_at_frame(p, last.frame, 0);
        lemma_first_after_frame(p, last.frame as int, 0);
        assert(forall|j: int| 0 <= j < p.len() ==> p[j].frame < last.frame);
        assert(first_at_frame(p, last.frame, 0) == p.len());
        assert(first_after_frame(p, last.frame as int, 0) == p.len());
        assert(p.insert(p.len() as int, last) =~= w);
    }
}

/// The clamp applied to an optional track: no track stays no track; a track
/// keeps its keyframes in `[0, duration]` and disappears when none remain.
pub fn clamp_keyframes_to_duration<V: Copy>(track: Option<KeyframeTrack<V>>, duration: i32) -> (r:
    Option<KeyframeTrack<V>>)
    ensures
        match track {
            None => r is None,
            Some(t) => {
                &&& r is None <==> spec_clamped(t.keyframes@, duration).len() == 0
                &&& r is Some ==> r->0.keyframes@ == spec_clamped(t.keyframes@, duration)
            },
        },
{
    match track {
        Some(t) => t.clamp_to_duration(duration),
        None => None,
    }
}

} // verus!
