//! Fetch results, the aggregator state they accumulate in, and the
//! statistics reducer that turns a finalized state into a run summary.
use std::collections::HashMap;
use vstd::prelude::*;

verus! {

broadcast use vstd::std_specs::hash::group_hash_axioms;

/// Outcome of one URL fetch attempt. `valid` is true exactly when the
/// transport call succeeded end to end; an invalid result carries zeroes.
#[derive(Clone, Copy, Debug)]
pub struct FetchResult {
    pub valid: bool,
    pub duration_ms: u64,
    pub status_code: u16,
    pub size: usize,
}

/// Number of valid results in the sequence.
pub open spec fn valid_count(rs: Seq<FetchResult>) -> int
    decreases rs.len(),
{
    if rs.len() == 0 {
        0
    } else {
        valid_count(rs.drop_last()) + if rs.last().valid {
            1int
        } else {
            0int
        }
    }
}

/// Number of invalid results in the sequence.
pub open spec fn invalid_count(rs: Seq<FetchResult>) -> int
    decreases rs.len(),
{
    if rs.len() == 0 {
        0
    } else {
        invalid_count(rs.drop_last()) + if rs.last().valid {
            0int
        } else {
            1int
        }
    }
}

/// Sum of the durations of the valid results, in milliseconds.
pub open spec fn duration_sum(rs: Seq<FetchResult>) -> int
    decreases rs.len(),
{
    if rs.len() == 0 {
        0
    } else {
        duration_sum(rs.drop_last()) + if rs.last().valid {
            rs.last().duration_ms as int
        } else {
            0int
        }
    }
}

/// Sum of the body sizes of the valid results, in bytes.
pub open spec fn size_sum(rs: Seq<FetchResult>) -> int
    decreases rs.len(),
{
    if rs.len() == 0 {
        0
    } else {
        size_sum(rs.drop_last()) + if rs.last().valid {
            rs.last().size as int
        } else {
            0int
        }
    }
}

/// Smallest duration among the valid results, in milliseconds;
/// `u128::MAX` serves as the sentinel when no valid result exists.
pub open spec fn min_duration(rs: Seq<FetchResult>) -> int
    decreases rs.len(),
{
    if rs.len() == 0 {
        u128::MAX as int
    } else {
        let m = min_duration(rs.drop_last());
        if rs.last().valid && rs.last().duration_ms < m {
            rs.last().duration_ms as int
        } else {
            m
        }
    }
}

/// Largest duration among the valid results, in milliseconds;
/// `0` when no valid result exists.
pub open spec fn max_duration(rs: Seq<FetchResult>) -> int
    decreases rs.len(),
{
    if rs.len() == 0 {
        0
    } else {
        let m = max_duration(rs.drop_last());
        if rs.last().valid && rs.last().duration_ms > m {
            rs.last().duration_ms as int
        } else {
            m
        }
    }
}

/// The histogram after counting one more occurrence of this status code.
pub open spec fn bump(h: Map<u16, int>, c: u16) -> Map<u16, int> {
    h.insert(
        c,
        if h.dom().contains(c) {
            h[c] + 1
        } else {
            1
        },
    )
}

/// Status-code histogram over the valid results: each status code that
/// occurs among them maps to its number of occurrences.
pub open spec fn histogram(rs: Seq<FetchResult>) -> Map<u16, int>
    decreases rs.len(),
{
    if rs.len() == 0 {
        Map::empty()
    } else {
        let h = histogram(rs.drop_last());
        let r = rs.last();
        if r.valid {
            bump(h, r.status_code)
        } else {
            h
        }
    }
}

/// Number of valid results carrying the given status code.
pub open spec fn code_count(rs: Seq<FetchResult>, code: u16) -> int
    decreases rs.len(),
{
    if rs.len() == 0 {
        0
    } else {
        code_count(rs.drop_last(), code) + if rs.last().valid && rs.last().status_code == code {
            1int
        } else {
            0int
        }
    }
}

/// Wall-clock length of the run, from the recorded start to the recorded
/// end, saturating at zero if the clock ran backwards.
pub open spec fn run_duration(start_ms: u64, end_ms: u64) -> int {
    if end_ms >= start_ms {
        end_ms - start_ms
    } else {
        0
    }
}

/// Sum of all values of a finite map, such as a histogram.
pub open spec fn map_total(m: Map<u16, int>) -> int
    decreases m.dom().len() when m.dom().finite()
{
    if m.dom() =~= Set::<u16>::empty() {
        0
    } else {
        let c = m.dom().choose();
        m[c] + map_total(m.remove(c))
    }
}

/// Every result is either valid or invalid, so the two counts
/// partition the sequence.
pub proof fn lemma_counts_partition(rs: Seq<FetchResult>)
    ensures
        valid_count(rs) + invalid_count(rs) == rs.len(),
        0 <= valid_count(rs),
        0 <= invalid_count(rs),
    decreases rs.len(),
{
    if rs.len() > 0 {
        lemma_counts_partition(rs.drop_last());
    }
}

/// The summed durations of a sequence never exceed one maximal duration
/// per element.
pub proof fn lemma_duration_sum_bound(rs: Seq<FetchResult>)
    ensures
        0 <= duration_sum(rs),
        duration_sum(rs) <= rs.len() * (u64::MAX as int),
    decreases rs.len(),
{
    if rs.len() > 0 {
        lemma_duration_sum_bound(rs.drop_last());
    }
}

/// The summed sizes of the valid results are nonnegative.
pub proof fn lemma_size_sum_nonneg(rs: Seq<FetchResult>)
    ensures
        0 <= size_sum(rs),
    decreases rs.len(),
{
    if rs.len() > 0 {
        lemma_size_sum_nonneg(rs.drop_last());
    }
}

/// The summed sizes of a prefix never exceed those of the whole sequence.
pub proof fn lemma_size_sum_prefix(rs: Seq<FetchResult>, i: int)
    requires
        0 <= i <= rs.len(),
    ensures
        size_sum(rs.take(i)) <= size_sum(rs),
    decreases rs.len() - i,
{
    if i == rs.len() {
        assert(rs.take(i) =~= rs);
    } else {
        lemma_size_sum_prefix(rs, i + 1);
        assert(rs.take(i + 1).drop_last() =~= rs.take(i));
    }
}

/// Both duration extremes stay within the range their accumulators use.
pub proof fn lemma_duration_extremes_bounds(rs: Seq<FetchResult>)
    ensures
        0 <= max_duration(rs) <= u64::MAX as int,
        0 <= min_duration(rs) <= u128::MAX as int,
    decreases rs.len(),
{
    if rs.len() > 0 {
        lemma_duration_extremes_bounds(rs.drop_last());
    }
}

/// As soon as one valid result exists, the shortest duration is no
/// larger than the longest.
pub proof fn lemma_shortest_le_longest(rs: Seq<FetchResult>)
    requires
        valid_count(rs) > 0,
    ensures
        min_duration(rs) <= max_duration(rs),
    decreases rs.len(),
{
    lemma_counts_partition(rs.drop_last());
    if rs.last().valid {
        lemma_duration_extremes_bounds(rs.drop_last());
    } else {
        lemma_shortest_le_longest(rs.drop_last());
    }
}

/// Removing one result takes exactly its contribution out of every
/// running statistic.
proof fn lemma_stats_remove(rs: Seq<FetchResult>, j: int)
    requires
        0 <= j < rs.len(),
    ensures
        valid_count(rs) == valid_count(rs.remove(j)) + if rs[j].valid {
            1int
        } else {
            0int
        },
        invalid_count(rs) == invalid_count(rs.remove(j)) + if rs[j].valid {
            0int
        } else {
            1int
        },
        duration_sum(rs) == duration_sum(rs.remove(j)) + if rs[j].valid {
            rs[j].duration_ms as int
        } else {
            0int
        },
        size_sum(rs) == size_sum(rs.remove(j)) + if rs[j].valid {
            rs[j].size as int
        } else {
            0int
        },
        min_duration(rs) == (if rs[j].valid && rs[j].duration_ms < min_duration(rs.remove(j)) {
            rs[j].duration_ms as int
        } else {
            min_duration(rs.remove(j))
        }),
        max_duration(rs) == (if rs[j].valid && rs[j].duration_ms > max_duration(rs.remove(j)) {
            rs[j].duration_ms as int
        } else {
            max_duration(rs.remove(j))
        }),
        histogram(rs) == (if rs[j].valid {
            bump(histogram(rs.remove(j)), rs[j].status_code)
        } else {
            histogram(rs.remove(j))
        }),
    decreases rs.len(),
{
    if j == rs.len() - 1 {
        assert(rs.remove(j) =~= rs.drop_last());
    } else {
        lemma_stats_remove(rs.drop_last(), j);
        assert(rs.remove(j).drop_last() =~= rs.drop_last().remove(j));
        assert(rs.remove(j).last() == rs.last());
        if rs.last().valid && rs[j].valid {
            lemma_bump_commutes(
                histogram(rs.drop_last().remove(j)),
                rs[j].status_code,
                rs.last().status_code,
            );
        }
    }
}

/// Counting two more occurrences gives the same histogram in either order.
proof fn lemma_bump_commutes(h: Map<u16, int>, c1: u16, c2: u16)
    ensures
        bump(bump(h, c1), c2) == bump(bump(h, c2), c1),
{
    assert(bump(bump(h, c1), c2) =~= bump(bump(h, c2), c1));
}

/// The statistics are interleaving-independent: two runs whose workers
/// delivered the same results in any two orders agree in every count,
/// sum and duration extreme.
pub proof fn lemma_stats_depend_on_multiset_only(rs1: Seq<FetchResult>, rs2: Seq<FetchResult>)
    requires
        rs1.to_multiset() == rs2.to_multiset(),
    ensures
        rs1.len() == rs2.len(),
        valid_count(rs1) == valid_count(rs2),
        invalid_count(rs1) == invalid_count(rs2),
        duration_sum(rs1) == duration_sum(rs2),
        size_sum(rs1) == size_sum(rs2),
        min_duration(rs1) == min_duration(rs2),
        max_duration(rs1) == max_duration(rs2),
        histogram(rs1) == histogram(rs2),
    decreases rs1.len(),
{
    broadcast use vstd::seq_lib::group_to_multiset_ensures;

    if rs1.len() == 0 {
        assert(rs2.to_multiset().len() == 0);
    } else {
        let x = rs1.last();
        let last: int = rs1.len() - 1;
        assert(rs1.contains(x));
        assert(rs2.to_multiset().count(x) > 0);
        assert(rs2.contains(x));
        let j = choose|j: int| 0 <= j < rs2.len() && rs2[j] == x;
        assert(rs1.remove(last) =~= rs1.drop_last());
        assert(rs1.drop_last().to_multiset() =~= rs2.remove(j).to_multiset());
        lemma_stats_remove(rs2, j);
        lemma_stats_depend_on_multiset_only(rs1.drop_last(), rs2.remove(j));
    }
}

/// A histogram has finitely many status codes.
pub proof fn lemma_histogram_finite(rs: Seq<FetchResult>)
    ensures
        histogram(rs).dom().finite(),
    decreases rs.len(),
{
    if rs.len() > 0 {
        lemma_histogram_finite(rs.drop_last());
    }
}

/// A status code stands in the histogram exactly when some valid result
/// carries it, and it maps to the number of valid results that do.
pub proof fn lemma_histogram_code_counts(rs: Seq<FetchResult>)
    ensures
        forall|c: u16| histogram(rs).dom().contains(c) <==> #[trigger] code_count(rs, c) > 0,
        forall|c: u16| #[trigger]
            histogram(rs).dom().contains(c) ==> histogram(rs)[c] == code_count(rs, c),
        forall|c: u16| 0 <= #[trigger] code_count(rs, c),
    decreases rs.len(),
{
    if rs.len() > 0 {
        lemma_histogram_code_counts(rs.drop_last());
        let h = histogram(rs.drop_last());
        let r = rs.last();
        assert forall|c: u16|
            (histogram(rs).dom().contains(c) <==> code_count(rs, c) > 0)
            && (histogram(rs).dom().contains(c) ==> histogram(rs)[c] == code_count(rs, c))
            && 0 <= code_count(rs, c) by {
            assert(code_count(rs.drop_last(), c) >= 0);
            if r.valid && r.status_code == c {
                assert(histogram(rs).dom().contains(c));
                if h.dom().contains(c) {
                    assert(histogram(rs)[c] == h[c] + 1);
                } else {
                    assert(code_count(rs.drop_last(), c) == 0);
                    assert(histogram(rs)[c] == 1);
                }
            } else if r.valid {
                assert(histogram(rs).dom().contains(c) <==> h.dom().contains(c));
                assert(histogram(rs).dom().contains(c) ==> histogram(rs)[c] == h[c]);
            }
        }
    }
}

/// Each histogram entry counts at least one and at most all valid results.
pub proof fn lemma_histogram_le_valid(rs: Seq<FetchResult>)
    ensures
        forall|c: u16| #[trigger]
            histogram(rs).dom().contains(c) ==> 0 < histogram(rs)[c] <= valid_count(rs),
    decreases rs.len(),
{
    if rs.len() > 0 {
        lemma_histogram_le_valid(rs.drop_last());
        lemma_counts_partition(rs.drop_last());
        let h = histogram(rs.drop_last());
        let r = rs.last();
        assert forall|c: u16| #[trigger]
            histogram(rs).dom().contains(c) implies 0 < histogram(rs)[c] <= valid_count(rs) by {
            if r.valid {
                if c == r.status_code {
                    if h.dom().contains(c) {
                        assert(histogram(rs)[c] == h[c] + 1);
                    } else {
                        assert(histogram(rs)[c] == 1);
                    }
                } else {
                    assert(h.dom().contains(c));
                    assert(histogram(rs)[c] == h[c]);
                }
            }
        }
    }
}

/// Removing a key takes exactly that key's value out of a map's total.
proof fn lemma_map_total_remove(m: Map<u16, int>, k: u16)
    requires
        m.dom().finite(),
        m.dom().contains(k),
    ensures
        map_total(m) == m[k] + map_total(m.remove(k)),
    decreases m.dom().len(),
{
    let c = m.dom().choose();
    if c == k {
        assert(m.remove(c) =~= m.remove(k));
    } else {
        lemma_map_total_remove(m.remove(c), k);
        lemma_map_total_remove(m.remove(k), c);
        assert(m.remove(c).remove(k) =~= m.remove(k).remove(c));
    }
}

/// Inserting a key adjusts a map's total by the difference between the
/// new value and the value the key had, if any.
proof fn lemma_map_total_insert(m: Map<u16, int>, k: u16, v: int)
    requires
        m.dom().finite(),
    ensures
        map_total(m.insert(k, v)) == map_total(m) + v - if m.dom().contains(k) {
            m[k]
        } else {
            0int
        },
{
    lemma_map_total_remove(m.insert(k, v), k);
    if m.dom().contains(k) {
        lemma_map_total_remove(m, k);
        assert(m.insert(k, v).remove(k) =~= m.remove(k));
    } else {
        assert(m.insert(k, v).remove(k) =~= m);
    }
}

/// The histogram's values sum to the number of valid results.
pub proof fn lemma_histogram_total(rs: Seq<FetchResult>)
    ensures
        map_total(histogram(rs)) == valid_count(rs),
    decreases rs.len(),
{
    if rs.len() == 0 {
        assert(histogram(rs).dom() =~= Set::<u16>::empty());
    } else {
        lemma_histogram_total(rs.drop_last());
        lemma_histogram_finite(rs.drop_last());
        let r = rs.last();
        if r.valid {
            let h = histogram(rs.drop_last());
            let v = if h.dom().contains(r.status_code) {
                h[r.status_code] + 1
            } else {
                1int
            };
            lemma_map_total_insert(h, r.status_code, v);
        }
    }
}

/// Aggregate statistics of one run, computed once over a finalized
/// aggregator state. Durations are in milliseconds.
#[derive(Clone, Debug)]
pub struct RunSummary {
    pub average_request_duration_ms: u128,
    pub invalid_requests: u128,
    pub longest_request_duration_ms: u128,
    pub requests_per_second: u128,
    pub shortest_request_duration_ms: u128,
    pub status_codes: HashMap<u16, u128>,
    pub test_duration_ms: u128,
    pub total_downloaded_bytes: usize,
    pub valid_requests: u128,
}

/// What it means for a run summary to be the one determined by a
/// finalized state: every field is pinned by the results alone and the
/// two timestamps.
pub open spec fn is_summary_for(
    rs: Seq<FetchResult>,
    start_ms: u64,
    end_ms: u64,
    s: RunSummary,
) -> bool {
    &&& s.valid_requests as int == valid_count(rs)
    &&& s.invalid_requests as int == invalid_count(rs)
    &&& s.total_downloaded_bytes as int == size_sum(rs)
    &&& s.shortest_request_duration_ms as int == min_duration(rs)
    &&& s.longest_request_duration_ms as int == max_duration(rs)
    &&& s.test_duration_ms as int == run_duration(start_ms, end_ms)
    &&& s.average_request_duration_ms as int == (if valid_count(rs) == 0 {
        0int
    } else {
        duration_sum(rs) / valid_count(rs)
    })
    &&& s.requests_per_second as int == (if valid_count(rs) == 0 {
        0int
    } else {
        (1000 * run_duration(start_ms, end_ms)) / valid_count(rs)
    })
    &&& forall|c: u16|
        s.status_codes@.dom().contains(c) <==> #[trigger] histogram(rs).dom().contains(c)
    &&& forall|c: u16| #[trigger]
        histogram(rs).dom().contains(c) ==> s.status_codes@[c] as int == histogram(rs)[c]
}

/// The summary reducer is a pure function of the finalized state: any
/// two summaries of the same state agree in every field.
pub proof fn lemma_summary_reducer_pure(
    rs: Seq<FetchResult>,
    start_ms: u64,
    end_ms: u64,
    a: RunSummary,
    b: RunSummary,
)
    requires
        is_summary_for(rs, start_ms, end_ms, a),
        is_summary_for(rs, start_ms, end_ms, b),
    ensures
        a.valid_requests == b.valid_requests,
        a.invalid_requests == b.invalid_requests,
        a.total_downloaded_bytes == b.total_downloaded_bytes,
        a.shortest_request_duration_ms == b.shortest_request_duration_ms,
        a.longest_request_duration_ms == b.longest_request_duration_ms,
        a.test_duration_ms == b.test_duration_ms,
        a.average_request_duration_ms == b.average_request_duration_ms,
        a.requests_per_second == b.requests_per_second,
        a.status_codes@ == b.status_codes@,
{
    assert forall|c: u16| #[trigger]
        a.status_codes@.dom().contains(c) implies b.status_codes@.dom().contains(c) by {
        assert(histogram(rs).dom().contains(c));
    }
    assert forall|c: u16| #[trigger]
        b.status_codes@.dom().contains(c) implies a.status_codes@.dom().contains(c) by {
        assert(histogram(rs).dom().contains(c));
    }
    assert(a.status_codes@.dom() =~= b.status_codes@.dom());
    assert forall|c: u16| #[trigger]
        a.status_codes@.dom().contains(c) implies a.status_codes@[c] == b.status_codes@[c] by {
        assert(histogram(rs).dom().contains(c));
    }
    assert(a.status_codes@ =~= b.status_codes@);
}

/// No worker interleaving changes the report: summaries of two runs
/// that collected the same results, in whatever orders, between the
/// same timestamps, agree in every field.
pub proof fn lemma_summary_ignores_interleaving(
    rs1: Seq<FetchResult>,
    rs2: Seq<FetchResult>,
    start_ms: u64,
    end_ms: u64,
    a: RunSummary,
    b: RunSummary,
)
    requires
        rs1.to_multiset() == rs2.to_multiset(),
        is_summary_for(rs1, start_ms, end_ms, a),
        is_summary_for(rs2, start_ms, end_ms, b),
    ensures
        a.valid_requests == b.valid_requests,
        a.invalid_requests == b.invalid_requests,
        a.total_downloaded_bytes == b.total_downloaded_bytes,
        a.shortest_request_duration_ms == b.shortest_request_duration_ms,
        a.longest_request_duration_ms == b.longest_request_duration_ms,
        a.test_duration_ms == b.test_duration_ms,
        a.average_request_duration_ms == b.average_request_duration_ms,
        a.requests_per_second == b.requests_per_second,
        a.status_codes@ == b.status_codes@,
{
    lemma_stats_depend_on_multiset_only(rs1, rs2);
    assert(is_summary_for(rs1, start_ms, end_ms, b));
    lemma_summary_reducer_pure(rs1, start_ms, end_ms, a, b);
}

/// The state one result aggregator owns for the length of a run: the
/// results appended so far and the two timestamps, in milliseconds on
/// whatever clock the caller samples. The caller keeps it behind one
/// lock; every method here is one critical section's worth of work.
#[derive(Clone, Debug)]
pub struct FetchReceiverState {
    pub results: Vec<FetchResult>,
    pub start: Option<u64>,
    pub end: Option<u64>,
}

impl FetchReceiverState {
    /// A fresh state: no results, neither timestamp set.
    pub fn new() -> (s: Self)
        ensures
            s.results@ == Seq::<FetchResult>::empty(),
            s.start is None,
            s.end is None,
    {
        FetchReceiverState { results: Vec::new(), start: None, end: None }
    }

    /// Records the run's start time. To be called exactly once, before
    /// any URL is dispatched; a second call overwrites the first.
    pub fn start(&mut self, now_ms: u64)
        ensures
            final(self).results@ == old(self).results@,
            final(self).start == Some(now_ms),
            final(self).end == old(self).end,
    {
        self.start = Some(now_ms);
    }

    /// Records the run's end time. To be called exactly once, after
    /// every worker has terminated and every result has been appended.
    pub fn end(&mut self, now_ms: u64)
        ensures
            final(self).results@ == old(self).results@,
            final(self).start == old(self).start,
            final(self).end == Some(now_ms),
    {
        self.end = Some(now_ms);
    }

    /// Appends one result: exactly that result arrives, exactly once,
    /// and nothing else changes.
    pub fn append(&mut self, result: FetchResult)
        ensures
            final(self).results@ == old(self).results@.push(result),
            final(self).start == old(self).start,
            final(self).end == old(self).end,
    {
        self.results.push(result);
    }

    /// A point-in-time copy of the whole state, equal to it field by
    /// field.
    pub fn snapshot(&self) -> (s: Self)
        ensures
            s.results@ == self.results@,
            s.start == self.start,
            s.end == self.end,
    {
        let n: usize = self.results.len();
        let mut results: Vec<FetchResult> = Vec::new();
        for i in 0..n
            invariant
                n == self.results@.len(),
                results@ == self.results@.take(i as int),
        {
            results.push(self.results[i]);
            proof {
                assert(results@ =~= self.results@.take(i as int + 1));
            }
        }
        proof {
            assert(self.results@.take(n as int) =~= self.results@);
        }
        FetchReceiverState { results, start: self.start, end: self.end }
    }
}

/// The statistics reducer: turns a finalized aggregator state into the
/// run summary it determines. Both timestamps must have been recorded,
/// and the valid results' sizes must sum to a representable byte count.
///
/// With no valid result the averages and the rate are zero, the
/// histogram is empty and the shortest duration keeps its sentinel.
pub fn summary(state: &FetchReceiverState) -> (s: RunSummary)
    requires
        state.start is Some,
        state.end is Some,
        size_sum(state.results@) <= usize::MAX as int,
    ensures
        is_summary_for(state.results@, state.start.unwrap(), state.end.unwrap(), s),
        s.valid_requests as int == valid_count(state.results@),
        s.invalid_requests as int == invalid_count(state.results@),
        s.valid_requests as int + s.invalid_requests as int == state.results@.len(),
        s.total_downloaded_bytes as int == size_sum(state.results@),
        s.valid_requests > 0 ==> s.average_request_duration_ms as int == duration_sum(
            state.results@,
        ) / valid_count(state.results@),
        s.valid_requests == 0 ==> s.average_request_duration_ms == 0 && s.requests_per_second == 0
            && s.status_codes@.dom() =~= Set::<u16>::empty(),
        forall|c: u16| #[trigger]
            histogram(state.results@).dom().contains(c) ==> s.status_codes@[c] as int
                == code_count(state.results@, c),
{
    let ghost rs = state.results@;
    let n: usize = state.results.len();
    let mut total_durations: u128 = 0;
    let mut status_codes: HashMap<u16, u128> = HashMap::new();
    let mut shortest_request_duration_ms: u128 = u128::MAX;
    let mut longest_request_duration_ms: u128 = 0;
    let mut total_downloaded_bytes: usize = 0;
    let mut valid_requests: u128 = 0;
    let mut invalid_requests: u128 = 0;

    for i in 0..n
        invariant
            n == rs.len(),
            rs == state.results@,
            size_sum(rs) <= usize::MAX as int,
            valid_requests as int == valid_count(rs.take(i as int)),
            invalid_requests as int == invalid_count(rs.take(i as int)),
            valid_requests + invalid_requests == i,
            total_durations as int == duration_sum(rs.take(i as int)),
            total_downloaded_bytes as int == size_sum(rs.take(i as int)),
            shortest_request_duration_ms as int == min_duration(rs.take(i as int)),
            longest_request_duration_ms as int == max_duration(rs.take(i as int)),
            status_codes@.dom() =~= histogram(rs.take(i as int)).dom(),
            forall|c: u16| #[trigger]
                status_codes@.dom().contains(c) ==> status_codes@[c] as int == histogram(
                    rs.take(i as int),
                )[c],
    {
        let result = state.results[i];
        proof {
            assert(rs.take(i as int + 1).drop_last() =~= rs.take(i as int));
            assert(rs.take(i as int + 1).last() == rs[i as int]);
        }
        if !result.valid {
            invalid_requests = invalid_requests + 1;
        } else {
            valid_requests = valid_requests + 1;
            let duration: u128 = result.duration_ms as u128;
            proof {
                lemma_duration_sum_bound(rs.take(i as int + 1));
            }
            total_durations = total_durations + duration;
            proof {
                lemma_size_sum_prefix(rs, i as int + 1);
                lemma_size_sum_nonneg(rs.take(i as int));
            }
            total_downloaded_bytes = total_downloaded_bytes + result.size;
            if duration < shortest_request_duration_ms {
                shortest_request_duration_ms = duration;
            }
            if duration > longest_request_duration_ms {
                longest_request_duration_ms = duration;
            }
            proof {
                lemma_histogram_le_valid(rs.take(i as int));
                lemma_counts_partition(rs.take(i as int));
            }
            let ghost pre_map = status_codes@;
            let ghost code = result.status_code;
            let ghost h = histogram(rs.take(i as int));
            let ghost hpost = histogram(rs.take(i as int + 1));
            let count: u128;
            match status_codes.get(&result.status_code) {
                Some(existing) => {
                    proof {
                        assert(pre_map.dom().contains(code));
                        assert(histogram(rs.take(i as int)).dom().contains(code));
                    }
                    count = *existing + 1;
                }
                None => {
                    count = 1;
                }
            }
            status_codes.insert(result.status_code, count);
            proof {
                assert(status_codes@ == pre_map.insert(code, count));
                assert(hpost == h.insert(
                    code,
                    if h.dom().contains(code) {
                        h[code] + 1
                    } else {
                        1int
                    },
                ));
                assert(count as int == if h.dom().contains(code) {
                    h[code] + 1
                } else {
                    1int
                });
                assert(status_codes@.dom() =~= hpost.dom());
                assert forall|c: u16| #[trigger]
                    status_codes@.dom().contains(c) implies status_codes@[c] as int == hpost[c] by {
                    if c != code {
                        assert(pre_map.dom().contains(c));
                        assert(status_codes@[c] == pre_map[c]);
                        assert(hpost[c] == h[c]);
                    }
                }
            }
        }
    }
    proof {
        assert(rs.take(n as int) =~= rs);
        if valid_requests == 0 {
            lemma_histogram_le_valid(rs);
            assert(histogram(rs).dom() =~= Set::<u16>::empty());
        }
        lemma_histogram_code_counts(rs);
        assert forall|c: u16| #[trigger]
            histogram(rs).dom().contains(c) implies status_codes@[c] as int == histogram(rs)[c] by {
            assert(status_codes@.dom().contains(c));
        }
    }

    let start_ms: u64 = state.start.unwrap();
    let end_ms: u64 = state.end.unwrap();
    let test_duration_ms: u128 = if end_ms >= start_ms {
        (end_ms - start_ms) as u128
    } else {
        0
    };
    let average_request_duration_ms: u128 = if valid_requests == 0 {
        0
    } else {
        total_durations / valid_requests
    };
    let requests_per_second: u128 = if valid_requests == 0 {
        0
    } else {
        (1000 * test_duration_ms) / valid_requests
    };

    RunSummary {
        average_request_duration_ms,
        invalid_requests,
        longest_request_duration_ms,
        requests_per_second,
        shortest_request_duration_ms,
        status_codes,
        test_duration_ms,
        total_downloaded_bytes,
        valid_requests,
    }
}

} // verus!
