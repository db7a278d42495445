//! The decisions of a check that the timestamp bindings of a source get compacted:
//! how it begins (skip, fail, or proceed), and, for each attempt of a retried read of the
//! bindings, whether the check is satisfied.
use vstd::prelude::*;

verus! {

/// The size limit used when none is given.
pub const DEFAULT_MAX_SIZE: usize = 3;

/// The outcome of one attempt of the check.
#[derive(Debug, Clone, Copy, PartialEq, Eq, Structural)]
pub enum CompactionVerdict {
    /// The bindings are few enough, or compaction has made progress.
    Compacted,
    /// There are no bindings at all.
    NoBindings,
    /// There are more bindings than allowed and no progress was seen.
    TooManyBindings { found: usize, max_size: usize },
}

/// The state of the check across attempts.
#[derive(Debug, Clone, Copy, PartialEq, Eq, Structural)]
pub struct CompactionCheck {
    /// The number of bindings that is small enough.
    pub max_size: usize,
    /// Whether compaction past the first attempt's highest timestamp also counts.
    pub permit_progress: bool,
    /// The highest timestamp seen at the first attempt (`u64::MAX` until then).
    pub initial_highest: u64,
}

/// The smallest timestamp, or `u64::MAX` when there is none.
pub open spec fn lowest(ts: Seq<u64>) -> u64
    decreases ts.len(),
{
    if ts.len() == 0 {
        u64::MAX
    } else if ts.last() < lowest(ts.drop_last()) {
        ts.last()
    } else {
        lowest(ts.drop_last())
    }
}

/// The largest timestamp, or `0` (`u64::MIN`) when there is none.
pub open spec fn highest(ts: Seq<u64>) -> u64
    decreases ts.len(),
{
    if ts.len() == 0 {
        0
    } else if ts.last() > highest(ts.drop_last()) {
        ts.last()
    } else {
        highest(ts.drop_last())
    }
}

/// How the check begins, given the lookup of the source in the catalog.
#[derive(Debug)]
pub enum CompactionStart<T, E> {
    /// There is no catalog or no data directory: the check is skipped.
    Skip,
    /// The source did not resolve in the catalog: the check fails with this error.
    Fail(E),
    /// The source resolved to this item: the check reads its bindings.
    Proceed(T),
}

impl CompactionCheck {
    /// Whether compaction counts as progressing at this attempt: never at the first
    /// attempt; later, when allowed and every binding is at or past the first
    /// attempt's highest timestamp.
    pub open spec fn progress(self, attempt: nat, ts: Seq<u64>) -> bool {
        attempt != 0 && self.permit_progress && lowest(ts) >= self.initial_highest
    }

    /// The verdict of an attempt that read the bindings with timestamps `ts`.
    pub open spec fn verdict(self, attempt: nat, ts: Seq<u64>) -> CompactionVerdict {
        if ts.len() == 0 {
            CompactionVerdict::NoBindings
        } else if ts.len() <= self.max_size || self.progress(attempt, ts) {
            CompactionVerdict::Compacted
        } else {
            CompactionVerdict::TooManyBindings { found: ts.len() as usize, max_size: self.max_size }
        }
    }

    /// The state after an attempt: the first attempt records its highest timestamp.
    pub open spec fn after(self, attempt: nat, ts: Seq<u64>) -> CompactionCheck {
        if attempt == 0 {
            CompactionCheck { initial_highest: highest(ts), ..self }
        } else {
            self
        }
    }

    /// A check with the given limit (3 when absent) and progress permission (off when
    /// absent), before its first attempt.
    pub fn new(max_size: Option<usize>, permit_progress: Option<bool>) -> (r: CompactionCheck)
        ensures
            r.max_size == (match max_size {
                Some(m) => m,
                None => DEFAULT_MAX_SIZE,
            }),
            r.permit_progress == (match permit_progress {
                Some(p) => p,
                None => false,
            }),
            r.initial_highest == u64::MAX,
    {
        let max_size = match max_size {
            Some(m) => m,
            None => DEFAULT_MAX_SIZE,
        };
        let permit_progress = match permit_progress {
            Some(p) => p,
            None => false,
        };
        CompactionCheck { max_size, permit_progress, initial_highest: u64::MAX }
    }

    /// Judges attempt number `attempt` (counting from zero), which read bindings with
    /// the timestamps `ts`.
    pub fn check_attempt(&mut self, attempt: usize, ts: &Vec<u64>) -> (r: CompactionVerdict)
        ensures
            r == old(self).verdict(attempt as nat, ts@),
            *final(self) == old(self).after(attempt as nat, ts@),
            0 < ts@.len() <= old(self).max_size ==> r == CompactionVerdict::Compacted,
            ts@.len() == 0 ==> r == CompactionVerdict::NoBindings,
            attempt == 0 ==> forall|i: int| 0 <= i < ts@.len() ==> #[trigger] ts@[i] <= final(self).initial_highest,
            attempt == 0 && ts@.len() > 0 ==> exists|i: int| 0 <= i < ts@.len() && final(self).initial_highest == #[trigger] ts@[i],
            attempt != 0 ==> final(self).initial_highest == old(self).initial_highest,
    {
        proof {
            lemma_highest_is_maximum(ts@);
        }
        if attempt == 0 {
            self.initial_highest = highest_timestamp(ts);
        }
        let progress = attempt != 0 && self.permit_progress && lowest_timestamp(ts) >= self.initial_highest;
        if ts.len() == 0 {
            CompactionVerdict::NoBindings
        } else if ts.len() <= self.max_size || progress {
            CompactionVerdict::Compacted
        } else {
            CompactionVerdict::TooManyBindings { found: ts.len(), max_size: self.max_size }
        }
    }
}

/// The smallest timestamp, or `u64::MAX` when there is none.
pub fn lowest_timestamp(ts: &Vec<u64>) -> (r: u64)
    ensures
        r == lowest(ts@),
        forall|i: int| 0 <= i < ts@.len() ==> r <= #[trigger] ts@[i],
        ts@.len() > 0 ==> exists|i: int| 0 <= i < ts@.len() && r == #[trigger] ts@[i],
        ts@.len() == 0 ==> r == u64::MAX,
{
    proof {
        lemma_lowest_is_minimum(ts@);
    }
    let mut m: u64 = u64::MAX;
    let mut i: usize = 0;
    while i < ts.len()
        invariant
            i <= ts.len(),
            m == lowest(ts@.take(i as int)),
        decreases ts.len() - i,
    {
        assert(ts@.take(i + 1).drop_last() =~= ts@.take(i as int));
        if ts[i] < m {
            m = ts[i];
        }
        i = i + 1;
    }
    assert(ts@.take(ts.len() as int) =~= ts@);
    m
}

/// The largest timestamp, or `0` when there is none.
pub fn highest_timestamp(ts: &Vec<u64>) -> (r: u64)
    ensures
        r == highest(ts@),
        forall|i: int| 0 <= i < ts@.len() ==> #[trigger] ts@[i] <= r,
        ts@.len() > 0 ==> exists|i: int| 0 <= i < ts@.len() && r == #[trigger] ts@[i],
        ts@.len() == 0 ==> r == 0,
{
    proof {
        lemma_highest_is_maximum(ts@);
    }
    let mut m: u64 = 0;
    let mut i: usize = 0;
    while i < ts.len()
        invariant
            i <= ts.len(),
            m == highest(ts@.take(i as int)),
        decreases ts.len() - i,
    {
        assert(ts@.take(i + 1).drop_last() =~= ts@.take(i as int));
        if ts[i] > m {
            m = ts[i];
        }
        i = i + 1;
    }
    assert(ts@.take(ts.len() as int) =~= ts@);
    m
}

/// Decides how the check begins. `lookup` is `None` when no catalog is available,
/// and otherwise the result of resolving the source in it. The check is skipped
/// without a catalog or without a data directory; otherwise a resolution error ends
/// it with that error, and a resolved item lets it proceed.
pub fn start_check<T, E>(lookup: Option<Result<T, E>>, data_path_known: bool) -> (r: CompactionStart<T, E>)
    ensures
        match lookup {
            None => r is Skip,
            Some(resolved) => if !data_path_known {
                r is Skip
            } else {
                match resolved {
                    Ok(item) => r == CompactionStart::<T, E>::Proceed(item),
                    Err(e) => r == CompactionStart::<T, E>::Fail(e),
                }
            },
        },
{
    match lookup {
        None => CompactionStart::Skip,
        Some(resolved) => {
            if !data_path_known {
                CompactionStart::Skip
            } else {
                match resolved {
                    Ok(item) => CompactionStart::Proceed(item),
                    Err(e) => CompactionStart::Fail(e),
                }
            }
        },
    }
}

/// Every timestamp is at least the lowest one.
pub proof fn lemma_lowest_is_min(ts: Seq<u64>, bound: u64)
    requires
        forall|i: int| 0 <= i < ts.len() ==> ts[i] >= bound,
    ensures
        lowest(ts) >= bound,
    decreases ts.len(),
{
    if ts.len() > 0 {
        lemma_lowest_is_min(ts.drop_last(), bound);
    }
}

/// The lowest timestamp is the minimum: no timestamp is below it, and when there
/// are timestamps it is one of them.
pub proof fn lemma_lowest_is_minimum(ts: Seq<u64>)
    ensures
        forall|i: int| 0 <= i < ts.len() ==> lowest(ts) <= #[trigger] ts[i],
        ts.len() > 0 ==> exists|i: int| 0 <= i < ts.len() && lowest(ts) == #[trigger] ts[i],
    decreases ts.len(),
{
    if ts.len() > 0 {
        let init = ts.drop_last();
        lemma_lowest_is_minimum(init);
        assert forall|i: int| 0 <= i < ts.len() implies lowest(ts) <= #[trigger] ts[i] by {
            if i < init.len() {
                assert(ts[i] == init[i]);
            }
        }
        if ts.last() < lowest(init) || init.len() == 0 {
            assert(lowest(ts) == ts[ts.len() - 1]);
        } else {
            let j = choose|j: int| 0 <= j < init.len() && lowest(init) == #[trigger] init[j];
            assert(lowest(ts) == ts[j]);
        }
    }
}

/// The highest timestamp is the maximum: no timestamp is above it, and when there
/// are timestamps it is one of them.
pub proof fn lemma_highest_is_maximum(ts: Seq<u64>)
    ensures
        forall|i: int| 0 <= i < ts.len() ==> #[trigger] ts[i] <= highest(ts),
        ts.len() > 0 ==> exists|i: int| 0 <= i < ts.len() && highest(ts) == #[trigger] ts[i],
    decreases ts.len(),
{
    if ts.len() > 0 {
        let init = ts.drop_last();
        lemma_highest_is_maximum(init);
        assert forall|i: int| 0 <= i < ts.len() implies #[trigger] ts[i] <= highest(ts) by {
            if i < init.len() {
                assert(ts[i] == init[i]);
            }
        }
        if ts.last() > highest(init) || init.len() == 0 {
            assert(highest(ts) == ts[ts.len() - 1]);
        } else {
            let j = choose|j: int| 0 <= j < init.len() && highest(init) == #[trigger] init[j];
            assert(highest(ts) == ts[j]);
        }
    }
}

/// The first attempt records the maximum of its timestamps (0 when it read none):
/// afterwards the recorded highest timestamp is at least every one of them, and is
/// one of them when there were any.
pub proof fn lemma_first_attempt_records_maximum(check: CompactionCheck, first: Seq<u64>)
    ensures
        forall|i: int| 0 <= i < first.len() ==> #[trigger] first[i] <= check.after(0, first).initial_highest,
        first.len() > 0 ==> exists|i: int| 0 <= i < first.len() && check.after(0, first).initial_highest == #[trigger] first[i],
        first.len() == 0 ==> check.after(0, first).initial_highest == 0,
        check.after(0, first).max_size == check.max_size,
        check.after(0, first).permit_progress == check.permit_progress,
{
    lemma_highest_is_maximum(first);
}

/// Progress is seen exactly when progress is permitted, the attempt is not the
/// first, and every timestamp read is at or past the recorded highest one.
pub proof fn lemma_progress_means_all_past(check: CompactionCheck, attempt: nat, ts: Seq<u64>)
    ensures
        check.progress(attempt, ts) <==> (attempt != 0 && check.permit_progress && forall|i: int|
            0 <= i < ts.len() ==> #[trigger] ts[i] >= check.initial_highest),
{
    lemma_lowest_is_minimum(ts);
    if attempt != 0 && check.permit_progress && forall|i: int| 0 <= i < ts.len() ==> #[trigger] ts[i] >= check.initial_highest {
        lemma_lowest_is_min(ts, check.initial_highest);
    }
}

/// Within the limit: every attempt, with or without progress permission, that reads
/// at least one and at most `max_size` bindings is satisfied.
pub proof fn lemma_within_limit_compacted(check: CompactionCheck, attempt: nat, ts: Seq<u64>)
    requires
        0 < ts.len() <= check.max_size,
    ensures
        check.verdict(attempt, ts) == CompactionVerdict::Compacted,
{
}

/// A verdict other than `Compacted` reports the number of bindings read and the limit,
/// and comes only when there are more bindings than the limit and no progress.
pub proof fn lemma_too_many_means_over_limit(check: CompactionCheck, attempt: nat, ts: Seq<u64>)
    ensures
        check.verdict(attempt, ts) is TooManyBindings <==> (ts.len() > check.max_size
            && !check.progress(attempt, ts)),
        ts.len() <= usize::MAX ==> (check.verdict(attempt, ts) matches CompactionVerdict::TooManyBindings { found, max_size } ==> found == ts.len() && max_size == check.max_size),
{
}

/// Attempts without bindings always fail with `NoBindings`.
pub proof fn lemma_empty_never_compacted(check: CompactionCheck, attempt: nat)
    ensures
        check.verdict(attempt, Seq::empty()) == CompactionVerdict::NoBindings,
{
}

/// The first attempt never counts progress: it is satisfied exactly when there are
/// some bindings but no more than the limit.
pub proof fn lemma_first_attempt(check: CompactionCheck, ts: Seq<u64>)
    ensures
        (check.verdict(0, ts) == CompactionVerdict::Compacted) <==> (0 < ts.len()
            <= check.max_size),
{
}

/// Without progress permission, every attempt is satisfied exactly when there are
/// some bindings but no more than the limit.
pub proof fn lemma_without_progress(check: CompactionCheck, attempt: nat, ts: Seq<u64>)
    requires
        !check.permit_progress,
    ensures
        (check.verdict(attempt, ts) == CompactionVerdict::Compacted) <==> (0 < ts.len()
            <= check.max_size),
{
}

/// Progress: once the first attempt has seen bindings up to some highest timestamp,
/// a later attempt whose bindings all lie at or past it is satisfied (when progress
/// is permitted), however many bindings there are.
pub proof fn lemma_progress_after_first_attempt(
    check: CompactionCheck,
    first: Seq<u64>,
    attempt: nat,
    ts: Seq<u64>,
)
    requires
        check.permit_progress,
        attempt > 0,
        ts.len() > 0,
        forall|i: int| 0 <= i < ts.len() ==> ts[i] >= highest(first),
    ensures
        check.after(0, first).verdict(attempt, ts) == CompactionVerdict::Compacted,
{
    lemma_lowest_is_min(ts, highest(first));
}

} // verus!
