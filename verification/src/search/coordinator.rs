use vstd::prelude::*;

use crate::model::clip_type::ClipType;
use crate::model::library::{index_views, kept_indices};
use crate::search::model_loader::ModelState;
use crate::search::transcript_search::{is_white_space, white_space};
use crate::text::{contains_str, views};

verus! {

/// Whether an asset of this kind gets a transcript: audio, or video that
/// carries an audio track.
pub fn wants_transcript(kind: ClipType, has_audio: bool) -> (r: bool)
    ensures
        r == (kind == ClipType::Audio || (kind == ClipType::Video && has_audio)),
{
    kind == ClipType::Audio || (kind == ClipType::Video && has_audio)
}

/// Whether a query is blank: nothing but white space. A blank query searches
/// nothing.
pub fn is_blank_query(query: &str) -> (r: bool)
    ensures
        r == forall|i: int| 0 <= i < query@.len() ==> is_white_space(#[trigger] query@[i]),
{
    let n = query.unicode_len();
    let mut i: usize = 0;
    while i < n
        invariant
            n == query@.len(),
            i <= n,
            forall|j: int| 0 <= j < i ==> is_white_space(#[trigger] query@[j]),
        decreases n - i,
    {
        if !white_space(query.get_char(i)) {
            return false;
        }
        i = i + 1;
    }
    true
}

/// Whether an asset `(id, kind)` is searched visually: a visual kind, and in
/// `within` when a scope is given.
pub open spec fn is_search_candidate(asset: (Seq<char>, ClipType), within: Option<Seq<Seq<char>>>) -> bool {
    (asset.1 == ClipType::Video || asset.1 == ClipType::Image) && match within {
        Some(w) => w.contains(asset.0),
        None => true,
    }
}

/// Assets `(id, kind)` as values.
pub open spec fn asset_views(assets: Seq<(String, ClipType)>) -> Seq<(Seq<char>, ClipType)> {
    assets.map_values(|a: (String, ClipType)| (a.0@, a.1))
}

/// A search scope as values.
pub open spec fn scope_view(within: Option<&Vec<String>>) -> Option<Seq<Seq<char>>> {
    match within {
        Some(w) => Some(views(w@)),
        None => None,
    }
}

/// The positions of the assets a visual search looks at, in order.
pub fn visual_candidates(assets: &Vec<(String, ClipType)>, within: Option<&Vec<String>>) -> (r: Vec<usize>)
    ensures
        index_views(r@) == kept_indices(
            assets@.len(),
            |k: int| is_search_candidate(asset_views(assets@)[k], scope_view(within)),
        ),
{
    let mut out: Vec<usize> = Vec::new();
    let mut k: usize = 0;
    while k < assets.len()
        invariant
            k <= assets@.len(),
            index_views(out@) == kept_indices(
                k as nat,
                |j: int| is_search_candidate(asset_views(assets@)[j], scope_view(within)),
            ),
        decreases assets@.len() - k,
    {
        let kind = assets[k].1;
        let visual = is_visual_kind(kind);
        let scoped = match within {
            Some(ids) => contains_str(ids, assets[k].0.as_str()),
            None => true,
        };
        assert(asset_views(assets@)[k as int] == (assets@[k as int].0@, assets@[k as int].1));
        if visual && scoped {
            out.push(k);
            assert(index_views(out@) =~= kept_indices(
                k as nat,
                |j: int| is_search_candidate(asset_views(assets@)[j], scope_view(within)),
            ).push(k as int));
        }
        k = k + 1;
    }
    out
}

/// What the visual subsystem reports to the user. A download's progress is the
/// `f64` bit pattern of its fraction.
#[derive(Debug, Clone, PartialEq)]
pub enum VisualStatus {
    /// Visual search works.
    Ready,
    /// The project's worker is indexing.
    Indexing,
    /// No model is installed; a download is required.
    ModelNotInstalled,
    /// A model download is in flight, with its fraction done.
    DownloadingModel(u64),
    /// An installed model is loading.
    Preparing,
    /// Search is off, or no embedder can run in this build.
    Disabled,
    /// Loading or downloading the model failed, with the reason.
    Failed(String),
}

/// Whether an asset of this kind gets a visual index: video or image.
pub fn is_visual_kind(kind: ClipType) -> (r: bool)
    ensures
        r == (kind == ClipType::Video || kind == ClipType::Image),
{
    kind == ClipType::Video || kind == ClipType::Image
}

/// The scheduling state of a project's indexing worker: the batch counters,
/// the FIFO of queued asset ids, the ids that failed this batch, the worker
/// generation (bumped on every start and cancel so a superseded worker stops),
/// whether a worker is draining, and the project's search toggle.
#[derive(Debug)]
pub struct IndexQueue {
    batch_total: usize,
    batch_completed: usize,
    queue: Vec<String>,
    failed_ids: Vec<String>,
    worker_generation: u64,
    worker_running: bool,
    enabled: bool,
}

impl IndexQueue {
    /// No asset is queued twice.
    #[verifier::type_invariant]
    closed spec fn queued_once(&self) -> bool {
        views(self.queue@).no_duplicates()
    }

    /// How many assets the current batch holds.
    pub closed spec fn spec_total(&self) -> nat {
        self.batch_total as nat
    }

    /// How many assets of the current batch are done.
    pub closed spec fn spec_completed(&self) -> nat {
        self.batch_completed as nat
    }

    /// The queued asset ids, front first.
    pub closed spec fn spec_queue(&self) -> Seq<Seq<char>> {
        views(self.queue@)
    }

    /// The ids that failed this batch.
    pub closed spec fn spec_failed(&self) -> Set<Seq<char>> {
        views(self.failed_ids@).to_set()
    }

    /// The worker generation; it moves on when a worker starts and when the queue is cancelled.
    pub closed spec fn spec_generation(&self) -> nat {
        self.worker_generation as nat
    }

    /// Whether a worker is currently draining the queue.
    pub closed spec fn spec_running(&self) -> bool {
        self.worker_running
    }

    /// Whether indexing is switched on.
    pub closed spec fn spec_enabled(&self) -> bool {
        self.enabled
    }

    /// An idle queue with the search toggle on.
    pub fn new() -> (r: Self)
        ensures
            r.spec_total() == 0,
            r.spec_completed() == 0,
            r.spec_queue().len() == 0,
            r.spec_failed().is_empty(),
            r.spec_generation() == 0,
            !r.spec_running(),
            r.spec_enabled(),
    {
        let r = IndexQueue {
            batch_total: 0,
            batch_completed: 0,
            queue: Vec::new(),
            failed_ids: Vec::new(),
            worker_generation: 0,
            worker_running: false,
            enabled: true,
        };
        assert(views(r.failed_ids@).to_set() =~= Set::empty());
        r
    }

    /// Whether a batch is in progress: fewer assets completed than scheduled.
    pub fn indexing_active(&self) -> (r: bool)
        ensures
            r == (self.spec_completed() < self.spec_total()),
    {
        self.batch_completed < self.batch_total
    }

    /// The batch counters `(completed, total)`.
    pub fn batch_counts(&self) -> (r: (usize, usize))
        ensures
            r.0 == self.spec_completed(),
            r.1 == self.spec_total(),
    {
        (self.batch_completed, self.batch_total)
    }

    /// The current worker generation.
    pub fn worker_generation(&self) -> (r: u64)
        ensures
            r == self.spec_generation(),
    {
        self.worker_generation
    }

    /// The visual status for a loader in `loader_state`: `Disabled` while the
    /// toggle is off; otherwise the loader's state, where a loader that has not
    /// prepared, or reports ready, is `Disabled` because this build carries no
    /// ONNX runtime to encode with.
    pub fn visual_status(&self, loader_state: &ModelState) -> (r: VisualStatus)
        ensures
            !self.spec_enabled() ==> r == VisualStatus::Disabled,
            self.spec_enabled() ==> match *loader_state {
                ModelState::NotInstalled => r == VisualStatus::ModelNotInstalled,
                ModelState::Downloading(f) => r == VisualStatus::DownloadingModel(f),
                ModelState::Preparing => r == VisualStatus::Preparing,
                ModelState::Failed(e) => (r matches VisualStatus::Failed(m) && m@ == e@),
                ModelState::Unknown => r == VisualStatus::Disabled,
                ModelState::Ready => r == VisualStatus::Disabled,
            },
    {
        if !self.enabled {
            return VisualStatus::Disabled;
        }
        match loader_state {
            ModelState::NotInstalled => VisualStatus::ModelNotInstalled,
            ModelState::Downloading(f) => VisualStatus::DownloadingModel(*f),
            ModelState::Preparing => VisualStatus::Preparing,
            ModelState::Failed(e) => VisualStatus::Failed(e.clone()),
            ModelState::Unknown => VisualStatus::Disabled,
            ModelState::Ready => VisualStatus::Disabled,
        }
    }

    /// The search toggle.
    pub fn search_index_enabled(&self) -> (r: bool)
        ensures
            r == self.spec_enabled(),
    {
        self.enabled
    }

    /// The number of queued assets.
    pub fn queued(&self) -> (r: usize)
        ensures
            r == self.spec_queue().len(),
    {
        self.queue.len()
    }

    /// Cancels indexing: the running worker goes stale, the queue empties and
    /// the batch counters reset.
    pub fn cancel(&mut self)
        requires
            old(self).spec_generation() < u64::MAX,
        ensures
            final(self).spec_generation() == old(self).spec_generation() + 1,
            final(self).spec_queue().len() == 0,
            final(self).spec_total() == 0,
            final(self).spec_completed() == 0,
            final(self).spec_failed() == old(self).spec_failed(),
            final(self).spec_running() == old(self).spec_running(),
            final(self).spec_enabled() == old(self).spec_enabled(),
    {
        proof {
            use_type_invariant(&*self);
        }
        self.worker_generation = self.worker_generation + 1;
        self.queue = Vec::new();
        self.batch_total = 0;
        self.batch_completed = 0;
        assert(views(self.queue@) =~= Seq::empty());
    }

    /// Cancels and also forgets this batch's failures.
    pub fn reset(&mut self)
        requires
            old(self).spec_generation() < u64::MAX,
        ensures
            final(self).spec_generation() == old(self).spec_generation() + 1,
            final(self).spec_queue().len() == 0,
            final(self).spec_total() == 0,
            final(self).spec_completed() == 0,
            final(self).spec_failed().is_empty(),
            final(self).spec_running() == old(self).spec_running(),
            final(self).spec_enabled() == old(self).spec_enabled(),
    {
        proof {
            use_type_invariant(&*self);
        }
        self.cancel();
        self.failed_ids = Vec::new();
        assert(views(self.failed_ids@).to_set() =~= Set::empty());
    }

    /// Sets the search toggle; turning it off cancels indexing.
    pub fn set_search_index_enabled(&mut self, value: bool)
        requires
            old(self).spec_generation() < u64::MAX,
        ensures
            final(self).spec_enabled() == value,
            value ==> final(self).spec_queue() == old(self).spec_queue() && final(self).spec_total()
                == old(self).spec_total() && final(self).spec_completed()
                == old(self).spec_completed() && final(self).spec_generation()
                == old(self).spec_generation(),
            !value ==> final(self).spec_queue().len() == 0 && final(self).spec_total() == 0
                && final(self).spec_completed() == 0 && final(self).spec_generation()
                == old(self).spec_generation() + 1,
            final(self).spec_failed() == old(self).spec_failed(),
            final(self).spec_running() == old(self).spec_running(),
    {
        proof {
            use_type_invariant(&*self);
        }
        self.enabled = value;
        if !value {
            self.cancel();
        }
    }

    /// Schedules asset `id`: it is queued when the toggle is on, the embedder is
    /// ready, the asset is not generating, it is neither queued nor failed this
    /// batch, and it needs work (`needs_work`: its visual index is stale or it
    /// wants a transcript that is not cached). Returns whether it was queued.
    pub fn schedule(&mut self, id: &str, embedder_ready: bool, is_generating: bool, needs_work: bool) -> (r:
        bool)
        requires
            old(self).spec_total() < usize::MAX,
        ensures
            r == (old(self).spec_enabled() && embedder_ready && !is_generating
                && !old(self).spec_queue().contains(id@) && !old(self).spec_failed().contains(id@)
                && needs_work),
            r ==> final(self).spec_queue() == old(self).spec_queue().push(id@) && final(self).spec_total() == old(self).spec_total() + 1,
            final(self).spec_queue().no_duplicates(),
            !r ==> final(self).spec_queue() == old(self).spec_queue() && final(self).spec_total()
                == old(self).spec_total(),
            final(self).spec_completed() == old(self).spec_completed(),
            final(self).spec_failed() == old(self).spec_failed(),
            final(self).spec_generation() == old(self).spec_generation(),
            final(self).spec_running() == old(self).spec_running(),
            final(self).spec_enabled() == old(self).spec_enabled(),
    {
        proof {
            use_type_invariant(&*self);
        }
        if !self.enabled || !embedder_ready || is_generating {
            return false;
        }
        if contains_str(&self.queue, id) || contains_str(&self.failed_ids, id) {
            proof {
                assert(views(self.failed_ids@).contains(id@) ==> views(self.failed_ids@).to_set().contains(id@));
            }
            return false;
        }
        if !needs_work {
            return false;
        }
        let ghost q = views(self.queue@);
        let mut queue: Vec<String> = Vec::new();
        std::mem::swap(&mut queue, &mut self.queue);
        queue.push(id.to_string());
        assert(views(queue@) =~= q.push(id@));
        self.queue = queue;
        self.batch_total = self.batch_total + 1;
        true
    }

    /// Starts a sweep: with the toggle on and the embedder ready, forgets this
    /// batch's failures (a fresh chance) and returns `true`; the caller then
    /// schedules each asset. Otherwise changes nothing.
    pub fn begin_sweep(&mut self, embedder_ready: bool) -> (r: bool)
        ensures
            r == (old(self).spec_enabled() && embedder_ready),
            r ==> final(self).spec_failed().is_empty(),
            !r ==> final(self).spec_failed() == old(self).spec_failed(),
            final(self).spec_queue() == old(self).spec_queue(),
            final(self).spec_total() == old(self).spec_total(),
            final(self).spec_completed() == old(self).spec_completed(),
            final(self).spec_generation() == old(self).spec_generation(),
            final(self).spec_running() == old(self).spec_running(),
            final(self).spec_enabled() == old(self).spec_enabled(),
    {
        proof {
            use_type_invariant(&*self);
        }
        if !self.enabled || !embedder_ready {
            return false;
        }
        self.failed_ids = Vec::new();
        assert(views(self.failed_ids@).to_set() =~= Set::empty());
        true
    }

    /// Claims the single worker slot: `None` when a worker is already draining;
    /// otherwise bumps the generation, marks the worker running and returns the
    /// new generation.
    pub fn claim_worker(&mut self) -> (r: Option<u64>)
        requires
            old(self).spec_generation() < u64::MAX,
        ensures
            old(self).spec_running() ==> r is None && final(self).spec_generation()
                == old(self).spec_generation(),
            !old(self).spec_running() ==> r == Some((old(self).spec_generation() + 1) as u64)
                && final(self).spec_generation() == old(self).spec_generation() + 1,
            final(self).spec_running(),
            final(self).spec_queue() == old(self).spec_queue(),
            final(self).spec_total() == old(self).spec_total(),
            final(self).spec_completed() == old(self).spec_completed(),
            final(self).spec_failed() == old(self).spec_failed(),
            final(self).spec_enabled() == old(self).spec_enabled(),
    {
        proof {
            use_type_invariant(&*self);
        }
        if self.worker_running {
            return None;
        }
        self.worker_generation = self.worker_generation + 1;
        self.worker_running = true;
        Some(self.worker_generation)
    }

    /// A worker of generation `generation` stops: the slot frees only if that
    /// worker is still the current one.
    pub fn finish_worker(&mut self, generation: u64)
        ensures
            final(self).spec_running() == (old(self).spec_running() && old(self).spec_generation()
                != generation),
            final(self).spec_queue() == old(self).spec_queue(),
            final(self).spec_total() == old(self).spec_total(),
            final(self).spec_completed() == old(self).spec_completed(),
            final(self).spec_failed() == old(self).spec_failed(),
            final(self).spec_generation() == old(self).spec_generation(),
            final(self).spec_enabled() == old(self).spec_enabled(),
    {
        proof {
            use_type_invariant(&*self);
        }
        if self.worker_generation == generation {
            self.worker_running = false;
        }
    }

    /// The next asset for the worker of generation `generation`: `None` when
    /// the worker is stale (state unchanged) or the queue is empty (the batch
    /// counters reset); otherwise the front id, removed from the queue.
    pub fn dequeue(&mut self, generation: u64) -> (r: Option<String>)
        ensures
            old(self).spec_generation() != generation ==> r is None && final(self).spec_queue()
                == old(self).spec_queue() && final(self).spec_total() == old(self).spec_total()
                && final(self).spec_completed() == old(self).spec_completed(),
            old(self).spec_generation() == generation && old(self).spec_queue().len() == 0 ==> r is None
                && final(self).spec_queue().len() == 0 && final(self).spec_total() == 0 && final(self).spec_completed() == 0,
            old(self).spec_generation() == generation && old(self).spec_queue().len() > 0 ==> (r matches Some(id) && id@ == old(self).spec_queue()[0] && final(self).spec_queue() == old(self).spec_queue().drop_first() && final(self).spec_total() == old(self).spec_total()
                && final(self).spec_completed() == old(self).spec_completed()),
            final(self).spec_failed() == old(self).spec_failed(),
            final(self).spec_generation() == old(self).spec_generation(),
            final(self).spec_running() == old(self).spec_running(),
            final(self).spec_enabled() == old(self).spec_enabled(),
    {
        proof {
            use_type_invariant(&*self);
        }
        if self.worker_generation != generation {
            return None;
        }
        if self.queue.len() == 0 {
            self.batch_total = 0;
            self.batch_completed = 0;
            return None;
        }
        let ghost q = views(self.queue@);
        let mut queue: Vec<String> = Vec::new();
        std::mem::swap(&mut queue, &mut self.queue);
        let id = queue.remove(0);
        assert(views(queue@) =~= q.drop_first());
        self.queue = queue;
        Some(id)
    }

    /// Records that the current asset finished, when the worker of generation
    /// `generation` is still the current one.
    pub fn complete_asset(&mut self, generation: u64)
        requires
            old(self).spec_completed() < usize::MAX,
        ensures
            final(self).spec_completed() == if old(self).spec_generation() == generation {
                old(self).spec_completed() + 1
            } else {
                old(self).spec_completed()
            },
            final(self).spec_queue() == old(self).spec_queue(),
            final(self).spec_total() == old(self).spec_total(),
            final(self).spec_failed() == old(self).spec_failed(),
            final(self).spec_generation() == old(self).spec_generation(),
            final(self).spec_running() == old(self).spec_running(),
            final(self).spec_enabled() == old(self).spec_enabled(),
    {
        proof {
            use_type_invariant(&*self);
        }
        if self.worker_generation == generation {
            self.batch_completed = self.batch_completed + 1;
        }
    }

    /// Records that asset `id` failed this batch (it is not rescheduled until
    /// the next sweep).
    pub fn mark_failed(&mut self, id: &str)
        ensures
            final(self).spec_failed() == old(self).spec_failed().insert(id@),
            final(self).spec_queue() == old(self).spec_queue(),
            final(self).spec_total() == old(self).spec_total(),
            final(self).spec_completed() == old(self).spec_completed(),
            final(self).spec_generation() == old(self).spec_generation(),
            final(self).spec_running() == old(self).spec_running(),
            final(self).spec_enabled() == old(self).spec_enabled(),
    {
        proof {
            use_type_invariant(&*self);
        }
        let ghost f = views(self.failed_ids@);
        let mut failed: Vec<String> = Vec::new();
        std::mem::swap(&mut failed, &mut self.failed_ids);
        failed.push(id.to_string());
        assert(views(failed@) =~= f.push(id@));
        self.failed_ids = failed;
        proof {
            f.lemma_push_to_set_commute(id@);
        }
    }

    /// Sweeps `candidates`: when the toggle is on and the embedder is ready,
    /// forgets this batch's failures and schedules each candidate in turn;
    /// otherwise changes nothing.
    pub fn sweep(&mut self, candidates: &Vec<SweepCandidate>, embedder_ready: bool)
        requires
            old(self).spec_total() + candidates@.len() <= usize::MAX,
        ensures
            old(self).spec_enabled() && embedder_ready ==> final(self).spec_queue() == swept(
                old(self).spec_queue(),
                candidate_views(candidates@),
            ) && final(self).spec_failed().is_empty() && final(self).spec_total()
                == old(self).spec_total() + final(self).spec_queue().len() - old(self).spec_queue().len(),
            !(old(self).spec_enabled() && embedder_ready) ==> final(self).spec_queue() == old(
                self,
            ).spec_queue() && final(self).spec_failed() == old(self).spec_failed()
                && final(self).spec_total() == old(self).spec_total(),
            final(self).spec_completed() == old(self).spec_completed(),
            final(self).spec_generation() == old(self).spec_generation(),
            final(self).spec_running() == old(self).spec_running(),
            final(self).spec_enabled() == old(self).spec_enabled(),
    {
        if !self.begin_sweep(embedder_ready) {
            return;
        }
        let ghost q0 = self.spec_queue();
        let ghost t0 = self.spec_total();
        let ghost cs = candidate_views(candidates@);
        let mut k: usize = 0;
        while k < candidates.len()
            invariant
                k <= candidates@.len(),
                cs == candidate_views(candidates@),
                t0 + candidates@.len() <= usize::MAX,
                self.spec_queue() == swept(q0, cs.take(k as int)),
                self.spec_total() == t0 + self.spec_queue().len() - q0.len(),
                self.spec_total() <= t0 + k,
                self.spec_failed().is_empty(),
                self.spec_enabled(),
                embedder_ready,
                self.spec_completed() == old(self).spec_completed(),
                self.spec_generation() == old(self).spec_generation(),
                self.spec_running() == old(self).spec_running(),
            decreases candidates@.len() - k,
        {
            let c = &candidates[k];
            assert(cs.take(k + 1).drop_last() =~= cs.take(k as int));
            assert(cs[k as int] == (c.id@, c.is_generating, c.needs_work));
            self.schedule(c.id.as_str(), embedder_ready, c.is_generating, c.needs_work);
            k = k + 1;
        }
        assert(cs.take(candidates@.len() as int) =~= cs);
    }
}

/// An asset offered to a sweep: its id, whether a generation is in flight
/// for it, and whether it needs work (a stale visual index, or a transcript
/// it wants that is not cached).
#[derive(Debug, Clone)]
pub struct SweepCandidate {
    pub id: String,
    pub is_generating: bool,
    pub needs_work: bool,
}

/// Sweep candidates as values `(id, is_generating, needs_work)`.
pub open spec fn candidate_views(candidates: Seq<SweepCandidate>) -> Seq<(Seq<char>, bool, bool)> {
    candidates.map_values(|c: SweepCandidate| (c.id@, c.is_generating, c.needs_work))
}

/// The queue after scheduling each candidate in turn onto `queue`, with no
/// failures on record: a candidate is appended when it is not generating,
/// needs work and is not queued yet.
pub open spec fn swept(queue: Seq<Seq<char>>, candidates: Seq<(Seq<char>, bool, bool)>) -> Seq<Seq<char>>
    decreases candidates.len(),
{
    if candidates.len() == 0 {
        queue
    } else {
        let before = swept(queue, candidates.drop_last());
        let c = candidates.last();
        if !c.1 && c.2 && !before.contains(c.0) {
            before.push(c.0)
        } else {
            before
        }
    }
}

/// Every candidate that is not generating and needs work is queued after a
/// sweep, and whatever was queued before stays queued.
proof fn lemma_swept_covers(queue: Seq<Seq<char>>, candidates: Seq<(Seq<char>, bool, bool)>)
    ensures
        forall|j: int|
            0 <= j < candidates.len() && !candidates[j].1 && candidates[j].2 ==> #[trigger] swept(
                queue,
                candidates,
            ).contains(candidates[j].0),
        forall|x: Seq<char>| queue.contains(x) ==> #[trigger] swept(queue, candidates).contains(x),
    decreases candidates.len(),
{
    if candidates.len() > 0 {
        let init = candidates.drop_last();
        lemma_swept_covers(queue, init);
        let before = swept(queue, init);
        let after = swept(queue, candidates);
        assert(forall|x: Seq<char>| before.contains(x) ==> after.contains(x)) by {
            assert forall|x: Seq<char>| before.contains(x) implies after.contains(x) by {
                let i = choose|i: int| 0 <= i < before.len() && before[i] == x;
                if after != before {
                    assert(after[i] == x);
                }
            }
        }
        assert forall|j: int|
            0 <= j < candidates.len() && !candidates[j].1 && candidates[j].2 implies after.contains(
            candidates[j].0,
        ) by {
            if j < candidates.len() - 1 {
                assert(init[j] == candidates[j]);
                assert(before.contains(init[j].0));
            } else if after != before {
                assert(after[after.len() - 1] == candidates[j].0);
            }
        }
    }
}

/// A sweep changes nothing when every candidate that is not generating and
/// needs work is already queued.
proof fn lemma_swept_settled(queue: Seq<Seq<char>>, candidates: Seq<(Seq<char>, bool, bool)>)
    requires
        forall|j: int|
            0 <= j < candidates.len() && !candidates[j].1 && candidates[j].2 ==> queue.contains(
                #[trigger] candidates[j].0,
            ),
    ensures
        swept(queue, candidates) == queue,
    decreases candidates.len(),
{
    if candidates.len() > 0 {
        let init = candidates.drop_last();
        assert forall|j: int| 0 <= j < init.len() && !init[j].1 && init[j].2 implies queue.contains(
            #[trigger] init[j].0,
        ) by {
            assert(init[j] == candidates[j]);
        }
        lemma_swept_settled(queue, init);
        let c = candidates.last();
        assert(c == candidates[candidates.len() - 1]);
    }
}

/// Sweeping the same candidates twice queues nothing the second time: a
/// second sweep leaves the queue as the first one left it.
pub proof fn law_sweep_is_idempotent(queue: Seq<Seq<char>>, candidates: Seq<(Seq<char>, bool, bool)>)
    ensures
        swept(swept(queue, candidates), candidates) == swept(queue, candidates),
{
    lemma_swept_covers(queue, candidates);
    lemma_swept_settled(swept(queue, candidates), candidates);
}

} // verus!
