use vstd::prelude::*;

verus! {

/// Seconds an indexing worker sleeps between checks while an export runs.
pub const EXPORT_POLL_INTERVAL_SECS: u64 = 2;

/// The in-flight export count after one more export begins.
pub open spec fn count_after_begin(c: nat) -> nat {
    c + 1
}

/// The in-flight export count after an export ends: one less, never below 0.
pub open spec fn count_after_end(c: nat) -> nat {
    if c == 0 {
        0
    } else {
        (c - 1) as nat
    }
}

/// The count after `n` exports begin.
pub open spec fn after_begins(c: nat, n: nat) -> nat
    decreases n,
{
    if n == 0 {
        c
    } else {
        count_after_begin(after_begins(c, (n - 1) as nat))
    }
}

/// The count after `m` exports end.
pub open spec fn after_ends(c: nat, m: nat) -> nat
    decreases m,
{
    if m == 0 {
        c
    } else {
        count_after_end(after_ends(c, (m - 1) as nat))
    }
}

/// The refcount of exports in flight; indexing pauses while it is above 0.
/// Several exports can overlap, so indexing resumes only when the last ends.
#[derive(Debug, Clone, Copy, PartialEq, Eq, Default)]
pub struct ExportPauseCounter {
    count: usize,
}

impl ExportPauseCounter {
    /// The number of exports in flight.
    pub closed spec fn spec_count(&self) -> nat {
        self.count as nat
    }

    /// No export in flight.
    pub fn new() -> (r: Self)
        ensures
            r.spec_count() == 0,
    {
        ExportPauseCounter { count: 0 }
    }

    /// A counter with `count` exports in flight.
    pub fn with_count(count: usize) -> (r: Self)
        ensures
            r.spec_count() == count,
    {
        ExportPauseCounter { count }
    }

    /// The number of exports in flight.
    pub fn count(&self) -> (r: usize)
        ensures
            r == self.spec_count(),
    {
        self.count
    }

    /// Whether at least one export is in flight.
    pub fn is_active(&self) -> (r: bool)
        ensures
            r == (self.spec_count() > 0),
    {
        self.count > 0
    }

    /// An export begins.
    pub fn begin(&mut self)
        requires
            old(self).spec_count() < usize::MAX,
        ensures
            final(self).spec_count() == count_after_begin(old(self).spec_count()),
    {
        self.count = self.count + 1;
    }

    /// An export ends; an unmatched end leaves the count at 0.
    pub fn end(&mut self)
        ensures
            final(self).spec_count() == count_after_end(old(self).spec_count()),
    {
        if self.count > 0 {
            self.count = self.count - 1;
        }
    }
}

proof fn lemma_begins_then_ends(n: nat, m: nat)
    requires
        m <= n,
    ensures
        after_ends(after_begins(0, n), m) == n - m,
    decreases m,
{
    if m > 0 {
        lemma_begins_then_ends(n, (m - 1) as nat);
    } else {
        lemma_after_begins(0, n);
    }
}

proof fn lemma_after_begins(c: nat, n: nat)
    ensures
        after_begins(c, n) == c + n,
    decreases n,
{
    if n > 0 {
        lemma_after_begins(c, (n - 1) as nat);
    }
}

proof fn lemma_ends_from_zero(m: nat)
    ensures
        after_ends(0, m) == 0,
    decreases m,
{
    if m > 0 {
        lemma_ends_from_zero((m - 1) as nat);
    }
}

proof fn lemma_ends_compose(c: nat, a: nat, b: nat)
    ensures
        after_ends(after_ends(c, a), b) == after_ends(c, a + b),
    decreases b,
{
    if b > 0 {
        lemma_ends_compose(c, a, (b - 1) as nat);
    }
}

/// An export held for a while and then ended leaves the count where it was:
/// from any count `c`, while the export is held exports are in flight, and
/// ending it gives back `c`.
pub proof fn law_end_undoes_begin(c: nat)
    ensures
        count_after_begin(c) > 0,
        count_after_end(count_after_begin(c)) == c,
{
}

/// Exports are refcounted: starting with none in flight, after `n` exports
/// begin and `m` of them end, exports are still in flight exactly when
/// `m < n`; an end without a matching begin leaves the count at 0.
pub proof fn law_resumes_after_last_export(n: nat, m: nat)
    ensures
        (after_ends(after_begins(0, n), m) > 0) == (m < n),
        after_ends(0, m) == 0,
{
    lemma_ends_from_zero(m);
    if m <= n {
        lemma_begins_then_ends(n, m);
    } else {
        lemma_begins_then_ends(n, n);
        lemma_ends_compose(after_begins(0, n), n, (m - n) as nat);
        lemma_ends_from_zero((m - n) as nat);
    }
}

} // verus!
