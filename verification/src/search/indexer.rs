use vstd::prelude::*;

use crate::search::model_spec::{EMBEDDING_DIM, MODEL, MODEL_VERSION, SAMPLER_VERSION};
use crate::search::store::{header_is_current, EmbeddingStore, Header, Row};

verus! {

/// The export-pause hook: called before each frame embed and once per asset;
/// an implementation blocks while an export is in flight. The default returns
/// at once.
pub trait ExportYield {
    fn wait_while_export_active(&self) -> (r: Result<(), String>)
        default_ensures
            r == Ok::<(), String>(()),
    {
        Ok(())
    }
}

/// The hook that never waits.
#[derive(Debug, Clone, Copy, Default)]
pub struct NoExportYield;

impl ExportYield for NoExportYield {

}

/// Outcome of an index call.
#[derive(Debug, Clone, Copy, PartialEq, Eq)]
pub enum Indexed {
    /// An `.embed` file was written with this many rows.
    Wrote { rows: usize },
    /// Already current for the model and sampler: nothing written.
    Skipped,
    /// No cache key could be computed (unreadable file): nothing written.
    NoKey,
}

/// What the row builder reads of a sampled frame: its time (as `f64` bits)
/// and whether it opens a new shot.
#[derive(Debug, Clone, Copy, PartialEq, Eq)]
pub struct FrameMark {
    pub time: u64,
    pub is_new_shot: bool,
}

/// The starts of the shots the frames open, in order: the first shot starts
/// at 0 (bit pattern of `0.0`), every later one at the time of its first frame.
pub open spec fn shot_starts(frames: Seq<FrameMark>) -> Seq<u64>
    decreases frames.len(),
{
    if frames.len() == 0 {
        Seq::empty()
    } else {
        let s = shot_starts(frames.drop_last());
        if frames.last().is_new_shot {
            s.push(
                if s.len() == 0 {
                    0u64
                } else {
                    frames.last().time
                },
            )
        } else {
            s
        }
    }
}

/// The shot frame `i` belongs to: the last one opened at or before it.
pub open spec fn shot_of(frames: Seq<FrameMark>, i: int) -> int {
    shot_starts(frames.take(i + 1)).len() - 1
}

/// The rows of a video: one per frame, with the frame's time, its shot's start,
/// and the next shot's start as the end (the clip duration for the last shot).
pub open spec fn shot_rows(frames: Seq<FrameMark>, duration: u64) -> Seq<Row> {
    Seq::new(
        frames.len(),
        |i: int|
            {
                let st = shot_starts(frames);
                let k = shot_of(frames, i);
                Row {
                    time: frames[i].time,
                    shot_start: st[k],
                    shot_end: if k + 1 < st.len() {
                        st[k + 1]
                    } else {
                        duration
                    },
                }
            },
    )
}

proof fn lemma_shot_starts_grow(frames: Seq<FrameMark>, i: int, j: int)
    requires
        0 <= i <= j <= frames.len(),
    ensures
        shot_starts(frames.take(i)).len() <= shot_starts(frames.take(j)).len(),
    decreases j - i,
{
    if i < j {
        lemma_shot_starts_grow(frames, i, j - 1);
        assert(frames.take(j).drop_last() =~= frames.take(j - 1));
    }
}

/// Indexes one asset into an embedding store.
pub struct VisualIndexer<'a> {
    store: &'a EmbeddingStore,
}

impl<'a> VisualIndexer<'a> {
    /// A new indexer writing into `store`.
    pub fn new(store: &'a EmbeddingStore) -> (r: Self)
        ensures
            r.store() == store,
    {
        VisualIndexer { store }
    }

    /// The store this indexer writes into.
    pub closed spec fn store(&self) -> &'a EmbeddingStore {
        self.store
    }

    /// The store this indexer writes into.
    pub fn embedding_store(&self) -> (r: &'a EmbeddingStore)
        ensures
            r == self.store(),
    {
        self.store
    }

    /// Whether an asset needs (re)indexing: `key` is its cache key (`None` when
    /// the file is unreadable, which never needs indexing) and `stored` the
    /// header stored under that key, if any. It needs indexing unless that
    /// header is current for this model and sampler.
    pub fn needs_index(key: &Option<String>, stored: &Option<Header>) -> (r: bool)
        ensures
            r == (key is Some && !header_is_current(
                *stored,
                MODEL@,
                MODEL_VERSION,
                SAMPLER_VERSION,
            )),
    {
        match key {
            Some(_) => !EmbeddingStore::is_current(stored, MODEL, MODEL_VERSION, SAMPLER_VERSION),
            None => false,
        }
    }

    /// The header an index of `rows` rows is saved under: this model and
    /// sampler, `EMBEDDING_DIM` components per vector.
    pub fn header_for(rows: usize) -> (r: Header)
        ensures
            r.model@ == MODEL@,
            r.model_version == MODEL_VERSION,
            r.sampler_version == SAMPLER_VERSION,
            r.dim == EMBEDDING_DIM,
            r.count == rows,
    {
        Header {
            model: MODEL.to_string(),
            model_version: MODEL_VERSION,
            sampler_version: SAMPLER_VERSION,
            dim: EMBEDDING_DIM,
            count: rows,
        }
    }

    /// The rows of a sampled video: each frame keeps its time; a frame that
    /// opens a shot starts a new one (the first shot at 0, every later one at
    /// that frame's time); a row spans its shot, which ends where the next one
    /// starts, or at `duration` for the last shot. The sampler always opens a
    /// shot on the first frame.
    pub fn build_video_rows(frames: &[FrameMark], duration: u64) -> (r: Vec<Row>)
        requires
            frames@.len() > 0 ==> frames@[0].is_new_shot,
        ensures
            r@ == shot_rows(frames@, duration),
    {
        let n = frames.len();
        let mut starts: Vec<u64> = Vec::new();
        let mut shots: Vec<usize> = Vec::new();
        let mut i: usize = 0;
        while i < n
            invariant
                n == frames@.len(),
                n > 0 ==> frames@[0].is_new_shot,
                i <= n,
                starts@ == shot_starts(frames@.take(i as int)),
                shots@.len() == i,
                forall|j: int| 0 <= j < i ==> shots@[j] == shot_of(frames@, j),
                i > 0 ==> starts@.len() >= 1,
                starts@.len() <= i,
            decreases n - i,
        {
            let f = frames[i];
            assert(frames@.take(i + 1).drop_last() =~= frames@.take(i as int));
            if f.is_new_shot {
                if starts.len() == 0 {
                    starts.push(0u64);
                } else {
                    starts.push(f.time);
                }
            }
            assert(starts@ == shot_starts(frames@.take(i + 1)));
            proof {
                if i == 0 {
                    assert(frames@.take(1).last() == frames@[0]);
                }
            }
            shots.push(starts.len() - 1);
            i = i + 1;
        }
        assert(frames@.take(n as int) =~= frames@);
        let ghost st = shot_starts(frames@);
        let mut rows: Vec<Row> = Vec::new();
        let mut k: usize = 0;
        while k < n
            invariant
                n == frames@.len(),
                st == shot_starts(frames@),
                starts@ == st,
                shots@.len() == n,
                forall|j: int| 0 <= j < n ==> shots@[j] == shot_of(frames@, j),
                k <= n,
                rows@ == shot_rows(frames@, duration).take(k as int),
            decreases n - k,
        {
            proof {
                lemma_shot_starts_grow(frames@, k + 1, n as int);
                assert(frames@.take(n as int) =~= frames@);
                lemma_shot_starts_grow(frames@, 1, k + 1);
                assert(frames@.take(1).drop_last() =~= frames@.take(0));
                assert(frames@.take(1).last() == frames@[0]);
            }
            let s = shots[k];
            let sl = starts.len();
            assert(s < sl);
            let end = if s + 1 < sl {
                starts[s + 1]
            } else {
                duration
            };
            rows.push(Row { time: frames[k].time, shot_start: starts[s], shot_end: end });
            assert(rows@ =~= shot_rows(frames@, duration).take(k + 1));
            k = k + 1;
        }
        rows
    }
}

} // verus!
