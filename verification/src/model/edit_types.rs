use vstd::prelude::*;

verus! {

/// A half-open `[start, end)` frame interval on one track.
#[derive(Debug, Clone, Copy, PartialEq, Eq, Hash, Structural)]
pub struct FrameRange {
    /// Inclusive start frame.
    pub start: i32,
    /// Exclusive end frame.
    pub end: i32,
}

impl FrameRange {
    /// The range `[start, end)`.
    pub fn new(start: i32, end: i32) -> (r: Self)
        ensures
            r.start == start,
            r.end == end,
    {
        FrameRange { start, end }
    }

    /// The number of frames the range covers.
    pub open spec fn spec_length(self) -> int {
        self.end - self.start
    }

    /// Number of frames spanned, `end - start`; zero when empty, negative when reversed.
    pub fn length(self) -> (r: i32)
        requires
            i32::MIN <= self.end - self.start <= i32::MAX,
        ensures
            r == self.spec_length(),
    {
        self.end - self.start
    }

    /// Whether `frame` lies in `[start, end)`.
    pub open spec fn spec_contains(self, frame: int) -> bool {
        self.start <= frame < self.end
    }

    /// Half-open membership: `start` is inside, `end` is not.
    pub fn contains(self, frame: i32) -> (r: bool)
        ensures
            r == self.spec_contains(frame as int),
    {
        frame >= self.start && frame < self.end
    }
}

/// A proposed new start frame for one clip, named by its id string.
#[derive(Debug, Clone, PartialEq, Eq, Hash)]
pub struct ClipShift {
    /// The clip to move.
    pub clip_id: String,
    /// The clip's start frame after the shift.
    pub new_start_frame: i32,
}

impl ClipShift {
    /// A shift of clip `clip_id` to `new_start_frame`.
    pub fn new(clip_id: &str, new_start_frame: i32) -> (r: Self)
        ensures
            r.clip_id@ == clip_id@,
            r.new_start_frame == new_start_frame,
    {
        ClipShift { clip_id: String::from_str(clip_id), new_start_frame }
    }
}

/// An empty gap selected on one track.
#[derive(Debug, Clone, Copy, PartialEq, Eq, Hash, Structural)]
pub struct GapSelection {
    /// Index of the track holding the gap.
    pub track_index: usize,
    /// The gap's half-open frame range.
    pub range: FrameRange,
}

impl GapSelection {
    /// The gap `range` on track `track_index`.
    pub fn new(track_index: usize, range: FrameRange) -> (r: Self)
        ensures
            r.track_index == track_index,
            r.range == range,
    {
        GapSelection { track_index, range }
    }
}

/// A dragged time range over the timeline; the two frames may be in either order.
#[derive(Debug, Clone, Copy, PartialEq, Eq, Hash, Structural)]
pub struct TimelineRangeSelection {
    /// Drag-anchor frame.
    pub start_frame: i32,
    /// Drag-cursor frame.
    pub end_frame: i32,
}

impl TimelineRangeSelection {
    /// The same selection with its ends in ascending order.
    pub open spec fn spec_normalized(self) -> TimelineRangeSelection {
        if self.start_frame <= self.end_frame {
            self
        } else {
            TimelineRangeSelection { start_frame: self.end_frame, end_frame: self.start_frame }
        }
    }

    /// A selection is valid when it spans at least one frame.
    pub open spec fn spec_is_valid(self) -> bool {
        self.spec_normalized().end_frame > self.spec_normalized().start_frame
    }

    /// Whether `frame` lies in the normalized selection, end excluded.
    pub open spec fn spec_contains(self, frame: int) -> bool {
        self.spec_normalized().start_frame <= frame < self.spec_normalized().end_frame
    }

    /// A selection from `start_frame` to `end_frame` (in either order).
    pub fn new(start_frame: i32, end_frame: i32) -> (r: Self)
        ensures
            r.start_frame == start_frame,
            r.end_frame == end_frame,
    {
        TimelineRangeSelection { start_frame, end_frame }
    }

    /// The same range with its frames ordered so that `start_frame <= end_frame`.
    pub fn normalized(self) -> (r: Self)
        ensures
            r == self.spec_normalized(),
    {
        if self.start_frame <= self.end_frame {
            self
        } else {
            TimelineRangeSelection { start_frame: self.end_frame, end_frame: self.start_frame }
        }
    }

    /// Whether the ordered range spans at least one frame.
    pub fn is_valid(self) -> (r: bool)
        ensures
            r == self.spec_is_valid(),
    {
        let r = self.normalized();
        r.end_frame > r.start_frame
    }

    /// Half-open membership on the ordered range.
    pub fn contains(self, frame: i32) -> (r: bool)
        ensures
            r == self.spec_contains(frame as int),
    {
        let r = self.normalized();
        frame >= r.start_frame && frame < r.end_frame
    }
}

/// The selection running from frame `a` to frame `b`.
pub open spec fn selection(a: i32, b: i32) -> TimelineRangeSelection {
    TimelineRangeSelection { start_frame: a, end_frame: b }
}

/// Normalizing orders the frames, keeps the same pair of frames, and is idempotent.
pub proof fn law_normalized_ordered_idempotent(s: TimelineRangeSelection)
    ensures
        s.spec_normalized().start_frame <= s.spec_normalized().end_frame,
        s.spec_normalized().spec_normalized() == s.spec_normalized(),
        s.spec_normalized() == selection(s.start_frame, s.end_frame).spec_normalized(),
        s.spec_normalized() == selection(s.end_frame, s.start_frame).spec_normalized(),
        s.start_frame <= s.end_frame ==> s.spec_normalized() == s,
{
}

/// A selection and its reversal select the same frames and are equally valid;
/// a selection is valid exactly when its two frames differ.
pub proof fn law_selection_direction_irrelevant(a: i32, b: i32, frame: int)
    ensures
        selection(a, b).spec_contains(frame) == selection(b, a).spec_contains(frame),
        selection(a, b).spec_is_valid() == (a != b),
        selection(a, b).spec_is_valid() == selection(b, a).spec_is_valid(),
{
}

/// A half-open range contains exactly `length` frames: it is empty iff its
/// length is at most zero, and its start is inside iff it is non-empty.
pub proof fn law_frame_range_half_open(r: FrameRange)
    ensures
        !r.spec_contains(r.end as int),
        r.spec_contains(r.start as int) <==> r.spec_length() > 0,
        r.spec_length() <= 0 ==> forall|f: int| !r.spec_contains(f),
{
}

} // verus!
