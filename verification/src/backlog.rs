use vstd::prelude::*;

verus! {

// Times are given as order keys: integers that order the instants as the
// instants themselves are ordered.

/// Starting from queue position `h`, drops every queued job that has
/// finished by the arrival of job `n`, front first, and stops at the first
/// one still running.
pub open spec fn drop_finished(arrivals: Seq<u64>, finishes: Seq<u64>, n: int, h: int) -> int
    decreases n - h,
{
    if h < n && finishes[h] <= arrivals[n] {
        drop_finished(arrivals, finishes, n, h + 1)
    } else {
        h
    }
}

/// The index of the job at the front of the FIFO queue once job `n` has
/// arrived and the finished jobs have left it; the queue then holds jobs
/// `queue_head(n) ..= n`.
pub open spec fn queue_head(arrivals: Seq<u64>, finishes: Seq<u64>, n: int) -> int
    decreases n,
{
    if n <= 0 {
        0
    } else {
        drop_finished(arrivals, finishes, n, queue_head(arrivals, finishes, n - 1))
    }
}

/// The number of jobs in the queue right after job `n` joined it.
pub open spec fn backlog_at(arrivals: Seq<u64>, finishes: Seq<u64>, n: int) -> int {
    n + 1 - queue_head(arrivals, finishes, n)
}

/// The number of jobs before job `n` that are still running when job `n`
/// arrives: those whose finish lies strictly after that arrival.
pub open spec fn jobs_running_at(arrivals: Seq<u64>, finishes: Seq<u64>, n: int) -> nat {
    finishes.take(n).filter(|x: u64| x > arrivals[n]).len()
}

/// The largest queue length seen over the first `k` jobs (0 for none).
pub open spec fn peak_upto(arrivals: Seq<u64>, finishes: Seq<u64>, k: int) -> int
    decreases k,
{
    if k <= 0 {
        0
    } else {
        let before = peak_upto(arrivals, finishes, k - 1);
        let now = backlog_at(arrivals, finishes, k - 1);
        if before >= now {
            before
        } else {
            now
        }
    }
}

proof fn lemma_drop_finished_range(arrivals: Seq<u64>, finishes: Seq<u64>, n: int, h: int)
    requires
        0 <= h <= n,
    ensures
        h <= drop_finished(arrivals, finishes, n, h) <= n,
    decreases n - h,
{
    if h < n && finishes[h] <= arrivals[n] {
        lemma_drop_finished_range(arrivals, finishes, n, h + 1);
    }
}

proof fn lemma_queue_head_range(arrivals: Seq<u64>, finishes: Seq<u64>, n: int)
    requires
        0 <= n,
    ensures
        0 <= queue_head(arrivals, finishes, n) <= n,
    decreases n,
{
    if n > 0 {
        lemma_queue_head_range(arrivals, finishes, n - 1);
        lemma_drop_finished_range(arrivals, finishes, n, queue_head(arrivals, finishes, n - 1));
    }
}

/// The peak number of submissions in the system of a FIFO fluid queue:
/// jobs arrive in the given order; job `n` arrives at `arrivals[n]` and
/// leaves at `finishes[n]`; on each arrival the jobs at the front of the
/// queue that have finished by then leave, and the new job joins the back.
pub fn peak_backlog(arrivals: &[u64], finishes: &[u64]) -> (peak: usize)
    requires
        arrivals@.len() == finishes@.len(),
    ensures
        peak == peak_upto(arrivals@, finishes@, arrivals@.len() as int),
        arrivals@.len() > 0 ==> 1 <= peak <= arrivals@.len(),
        arrivals@.len() == 0 ==> peak == 0,
        forall|n: int|
            0 <= n < arrivals@.len() ==> #[trigger] backlog_at(arrivals@, finishes@, n) <= peak,
        arrivals@.len() > 0 ==> exists|n: int|
            0 <= n < arrivals@.len() && peak == #[trigger] backlog_at(arrivals@, finishes@, n),
        nondecreasing(arrivals@) && nondecreasing(finishes@) ==> forall|n: int|
            0 <= n < arrivals@.len() ==> 1 + #[trigger] jobs_running_at(arrivals@, finishes@, n)
                <= peak,
        nondecreasing(arrivals@) && nondecreasing(finishes@) && arrivals@.len() > 0 ==> exists|
            n: int,
        |
            0 <= n < arrivals@.len() && peak == 1 + #[trigger] jobs_running_at(
                arrivals@,
                finishes@,
                n,
            ),
{
    let len = arrivals.len();
    let mut head: usize = 0;
    let mut peak: usize = 0;
    let mut n: usize = 0;
    while n < len
        invariant
            len == arrivals@.len(),
            len == finishes@.len(),
            n <= len,
            head <= n,
            n > 0 ==> head == queue_head(arrivals@, finishes@, n - 1),
            n == 0 ==> head == 0,
            peak == peak_upto(arrivals@, finishes@, n as int),
            n > 0 ==> 1 <= peak <= n,
            n == 0 ==> peak == 0,
        decreases len - n,
    {
        proof {
            if n > 0 {
                lemma_queue_head_range(arrivals@, finishes@, n - 1);
            }
        }
        while head < n && finishes[head] <= arrivals[n]
            invariant
                len == arrivals@.len(),
                len == finishes@.len(),
                n < len,
                head <= n,
                drop_finished(arrivals@, finishes@, n as int, head as int) == queue_head(
                    arrivals@,
                    finishes@,
                    n as int,
                ),
            decreases n - head,
        {
            head = head + 1;
        }
        let queued = n + 1 - head;
        if queued > peak {
            peak = queued;
        }
        n = n + 1;
    }
    proof {
        lemma_peak_upto_is_max(arrivals@, finishes@, len as int);
        if nondecreasing(arrivals@) && nondecreasing(finishes@) {
            assert forall|n: int| 0 <= n < len implies backlog_at(arrivals@, finishes@, n) == 1
                + #[trigger] jobs_running_at(arrivals@, finishes@, n) by {
                lemma_backlog_counts_running_jobs(arrivals@, finishes@, n);
            }
            if len > 0 {
                let w = choose|n: int|
                    0 <= n < len && peak == #[trigger] backlog_at(arrivals@, finishes@, n);
                assert(peak == 1 + jobs_running_at(arrivals@, finishes@, w));
            }
        }
    }
    peak
}

/// `peak_upto` over `k` jobs is the largest of the queue lengths after each
/// of their arrivals.
proof fn lemma_peak_upto_is_max(arrivals: Seq<u64>, finishes: Seq<u64>, k: int)
    requires
        0 <= k,
    ensures
        forall|n: int|
            0 <= n < k ==> #[trigger] backlog_at(arrivals, finishes, n) <= peak_upto(
                arrivals,
                finishes,
                k,
            ),
        k > 0 ==> exists|n: int|
            0 <= n < k && peak_upto(arrivals, finishes, k) == #[trigger] backlog_at(
                arrivals,
                finishes,
                n,
            ),
    decreases k,
{
    if k > 0 {
        lemma_peak_upto_is_max(arrivals, finishes, k - 1);
        lemma_queue_head_range(arrivals, finishes, k - 1);
        assert(peak_upto(arrivals, finishes, 0) == 0);
        if k > 1 && peak_upto(arrivals, finishes, k - 1) >= backlog_at(arrivals, finishes, k - 1) {
            let w = choose|n: int|
                0 <= n < k - 1 && peak_upto(arrivals, finishes, k - 1) == #[trigger] backlog_at(
                    arrivals,
                    finishes,
                    n,
                );
            assert(peak_upto(arrivals, finishes, k) == backlog_at(arrivals, finishes, w));
        } else {
            assert(peak_upto(arrivals, finishes, k) == backlog_at(arrivals, finishes, k - 1));
        }
    }
}

/// Counting the elements above `t` in a sequence whose first `h` elements
/// are at most `t` and whose others are above it.
proof fn lemma_count_above_split(s: Seq<u64>, t: u64, h: int)
    requires
        0 <= h <= s.len(),
        forall|m: int| 0 <= m < h ==> s[m] <= t,
        forall|m: int| h <= m < s.len() ==> s[m] > t,
    ensures
        s.filter(|x: u64| x > t).len() == s.len() - h,
    decreases s.len(),
{
    let p = |x: u64| x > t;
    if s.len() == 0 {
        reveal(Seq::filter);
    } else {
        let init = s.drop_last();
        assert(init.push(s.last()) =~= s);
        init.lemma_filter_len_push(p, s.last());
        if h == s.len() {
            lemma_count_above_split(init, t, h - 1);
        } else {
            lemma_count_above_split(init, t, h);
        }
    }
}

/// With arrivals and finishes in order, the queue after job `n` joins holds
/// job `n` and the earlier jobs still running at its arrival.
proof fn lemma_backlog_counts_running_jobs(arrivals: Seq<u64>, finishes: Seq<u64>, n: int)
    requires
        arrivals.len() == finishes.len(),
        nondecreasing(arrivals),
        nondecreasing(finishes),
        0 <= n < arrivals.len(),
    ensures
        backlog_at(arrivals, finishes, n) == 1 + jobs_running_at(arrivals, finishes, n),
{
    lemma_queue_holds_unfinished_jobs(arrivals, finishes, n);
    lemma_queue_head_range(arrivals, finishes, n);
    let h = queue_head(arrivals, finishes, n);
    let s = finishes.take(n);
    assert forall|m: int| 0 <= m < h implies s[m] <= arrivals[n] by {
        assert(!(m >= h));
    }
    assert forall|m: int| h <= m < s.len() implies s[m] > arrivals[n] by {
        assert(m >= h);
    }
    lemma_count_above_split(s, arrivals[n], h);
    assert(s.filter(|x: u64| x > arrivals[n]) == finishes.take(n).filter(|x: u64| x > arrivals[n]));
}

/// The sequence never decreases.
pub open spec fn nondecreasing(s: Seq<u64>) -> bool {
    forall|i: int, j: int| 0 <= i <= j < s.len() ==> s[i] <= s[j]
}

proof fn lemma_drop_finished_stops(arrivals: Seq<u64>, finishes: Seq<u64>, n: int, h: int)
    requires
        0 <= h <= n < arrivals.len(),
        arrivals.len() == finishes.len(),
    ensures
        forall|m: int|
            h <= m < drop_finished(arrivals, finishes, n, h) ==> finishes[m] <= arrivals[n],
        drop_finished(arrivals, finishes, n, h) == n || finishes[drop_finished(
            arrivals,
            finishes,
            n,
            h,
        )] > arrivals[n],
    decreases n - h,
{
    if h < n && finishes[h] <= arrivals[n] {
        lemma_drop_finished_stops(arrivals, finishes, n, h + 1);
    }
}

/// On each arrival the queue loses exactly its finished front: the front
/// only moves forward, every job it passes has finished by the arrival, and
/// a job left at the front is still running.
pub proof fn lemma_queue_head_step(arrivals: Seq<u64>, finishes: Seq<u64>, n: int)
    requires
        arrivals.len() == finishes.len(),
        0 < n < arrivals.len(),
    ensures
        queue_head(arrivals, finishes, n - 1) <= queue_head(arrivals, finishes, n) <= n,
        forall|j: int|
            queue_head(arrivals, finishes, n - 1) <= j < queue_head(arrivals, finishes, n)
                ==> finishes[j] <= arrivals[n],
        queue_head(arrivals, finishes, n) < n ==> finishes[queue_head(arrivals, finishes, n)]
            > arrivals[n],
{
    lemma_queue_head_range(arrivals, finishes, n - 1);
    lemma_drop_finished_range(arrivals, finishes, n, queue_head(arrivals, finishes, n - 1));
    lemma_drop_finished_stops(arrivals, finishes, n, queue_head(arrivals, finishes, n - 1));
}

/// The peak backlog over the first `k` jobs is the largest queue length
/// after any of their arrivals; with arrivals and finishes in order it is
/// the largest, over those arrivals, of one plus the number of earlier jobs
/// still running at that arrival.
pub proof fn lemma_peak_is_largest_queue(arrivals: Seq<u64>, finishes: Seq<u64>, k: int)
    requires
        arrivals.len() == finishes.len(),
        0 < k <= arrivals.len(),
    ensures
        forall|n: int|
            0 <= n < k ==> #[trigger] backlog_at(arrivals, finishes, n) <= peak_upto(
                arrivals,
                finishes,
                k,
            ),
        exists|n: int|
            0 <= n < k && peak_upto(arrivals, finishes, k) == #[trigger] backlog_at(
                arrivals,
                finishes,
                n,
            ),
        nondecreasing(arrivals) && nondecreasing(finishes) ==> forall|n: int|
            0 <= n < k ==> 1 + #[trigger] jobs_running_at(arrivals, finishes, n) <= peak_upto(
                arrivals,
                finishes,
                k,
            ),
        nondecreasing(arrivals) && nondecreasing(finishes) ==> exists|n: int|
            0 <= n < k && peak_upto(arrivals, finishes, k) == 1 + #[trigger] jobs_running_at(
                arrivals,
                finishes,
                n,
            ),
{
    lemma_peak_upto_is_max(arrivals, finishes, k);
    if nondecreasing(arrivals) && nondecreasing(finishes) {
        assert forall|n: int| 0 <= n < k implies backlog_at(arrivals, finishes, n) == 1
            + #[trigger] jobs_running_at(arrivals, finishes, n) by {
            lemma_backlog_counts_running_jobs(arrivals, finishes, n);
        }
        let w = choose|n: int|
            0 <= n < k && peak_upto(arrivals, finishes, k) == #[trigger] backlog_at(
                arrivals,
                finishes,
                n,
            );
        assert(peak_upto(arrivals, finishes, k) == 1 + jobs_running_at(arrivals, finishes, w));
    }
}

/// When jobs are taken in order of arrival and finish in that order too (as
/// in the fluid queue, where each job starts after the previous one), the
/// queue at the arrival of job `n` holds exactly the earlier jobs that are
/// still running then: an earlier job `m` is queued if and only if its
/// finish lies after job `n`'s arrival.
pub proof fn lemma_queue_holds_unfinished_jobs(arrivals: Seq<u64>, finishes: Seq<u64>, n: int)
    requires
        arrivals.len() == finishes.len(),
        nondecreasing(arrivals),
        nondecreasing(finishes),
        0 <= n < arrivals.len(),
    ensures
        forall|m: int|
            0 <= m < n ==> (m >= queue_head(arrivals, finishes, n) <==> finishes[m]
                > arrivals[n]),
    decreases n,
{
    let h0: int = if n == 0 {
        0
    } else {
        queue_head(arrivals, finishes, n - 1)
    };
    if n > 0 {
        lemma_queue_holds_unfinished_jobs(arrivals, finishes, n - 1);
        lemma_queue_head_range(arrivals, finishes, n - 1);
    }
    lemma_drop_finished_range(arrivals, finishes, n, h0);
    lemma_drop_finished_stops(arrivals, finishes, n, h0);
    let h = queue_head(arrivals, finishes, n);
    assert(h == drop_finished(arrivals, finishes, n, h0));
    assert forall|m: int| 0 <= m < n implies (m >= h <==> finishes[m] > arrivals[n]) by {
        if m < h0 {
            assert(finishes[m] <= arrivals[n - 1]);
            assert(arrivals[n - 1] <= arrivals[n]);
        } else if m < h {
        } else {
            assert(finishes[h] <= finishes[m]);
        }
    }
}

} // verus!
