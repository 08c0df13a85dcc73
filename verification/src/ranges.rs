//! How a file is cut into byte ranges for concurrent connections, and how
//! the bytes received are booked against those ranges.
use vstd::prelude::*;

use crate::config::DownloadRange;

verus! {

/// Bytes given to every connection but the last: `total / n`.
pub open spec fn chunk_len(total: u64, n: nat) -> int {
    total as int / n as int
}

/// The range that connection `i` of `n` is given for a file of `total` bytes:
/// `i * chunk ..= i * chunk + chunk - 1`, the last one running to the end of the file.
pub open spec fn planned_range(total: u64, n: nat, i: int) -> DownloadRange {
    let c: int = chunk_len(total, n);
    DownloadRange {
        start: (i * c) as u64,
        end: (if i == n - 1 {
            total - 1
        } else {
            i * c + c - 1
        }) as u64,
        downloaded: 0,
        completed: false,
    }
}

/// Sum of the spans of a sequence of ranges.
pub open spec fn sum_span(s: Seq<DownloadRange>) -> int
    decreases s.len(),
{
    if s.len() == 0 {
        0
    } else {
        sum_span(s.drop_last()) + s.last().span()
    }
}

/// Sum of the bytes booked as downloaded over a sequence of ranges.
pub open spec fn sum_downloaded(s: Seq<DownloadRange>) -> int
    decreases s.len(),
{
    if s.len() == 0 {
        0
    } else {
        sum_downloaded(s.drop_last()) + s.last().downloaded
    }
}

/// Sum of the bytes still to fetch over a sequence of ranges.
pub open spec fn sum_remaining(s: Seq<DownloadRange>) -> int
    decreases s.len(),
{
    if s.len() == 0 {
        0
    } else {
        sum_remaining(s.drop_last()) + s.last().spec_remaining()
    }
}

/// The ranges that still need bytes, each given as its index and its span, in order.
pub open spec fn spec_pending(s: Seq<DownloadRange>) -> Seq<(usize, u64)>
    decreases s.len(),
{
    if s.len() == 0 {
        Seq::empty()
    } else if s.last().spec_is_completed() {
        spec_pending(s.drop_last())
    } else {
        spec_pending(s.drop_last()).push(((s.len() - 1) as usize, s.last().span() as u64))
    }
}

/// Every range whose span the downloader reads can compute it.
pub open spec fn spans_readable(s: Seq<DownloadRange>) -> bool {
    forall|i: int| 0 <= i < s.len() ==> !(#[trigger] s[i]).completed ==> s[i].span_fits()
}

/// Every range whose remaining bytes the downloader reads can compute them.
pub open spec fn remaining_readable(s: Seq<DownloadRange>) -> bool {
    forall|i: int| 0 <= i < s.len() ==> !(#[trigger] s[i]).completed ==> s[i].consistent()
}

proof fn lemma_chunk_bounds(total: u64, n: nat, i: int)
    requires
        n >= 1,
        total >= n,
        0 <= i < n,
    ensures
        chunk_len(total, n) >= 1,
        0 <= i * chunk_len(total, n),
        i * chunk_len(total, n) + chunk_len(total, n) <= total,
        (i + 1) * chunk_len(total, n) == i * chunk_len(total, n) + chunk_len(total, n),
{
    let c: int = chunk_len(total, n);
    assert(c >= 1) by (nonlinear_arith)
        requires
            c == total as int / n as int,
            total >= n,
            n >= 1,
    ;
    assert(n * c <= total) by (nonlinear_arith)
        requires
            c == total as int / n as int,
            n >= 1,
    ;
    assert(i * c + c <= n * c && 0 <= i * c) by (nonlinear_arith)
        requires
            0 <= i < n,
            c >= 1,
    ;
    assert((i + 1) * c == i * c + c) by (nonlinear_arith);
}

/// Cuts a file of `total_size` bytes into `num_threads` ranges of `total_size / num_threads`
/// bytes each, the last range taking what is left up to the end of the file.
pub fn plan_ranges(total_size: u64, num_threads: usize) -> (r: Vec<DownloadRange>)
    requires
        num_threads >= 1,
        total_size >= num_threads,
    ensures
        r@.len() == num_threads,
        forall|i: int| 0 <= i < num_threads ==> #[trigger] r@[i] == planned_range(total_size, num_threads as nat, i),
{
    let n: u64 = num_threads as u64;
    let chunk_size: u64 = total_size / n;
    let mut ranges: Vec<DownloadRange> = Vec::new();
    let mut i: usize = 0;
    while i < num_threads
        invariant
            num_threads >= 1,
            total_size >= num_threads,
            n == num_threads,
            chunk_size == chunk_len(total_size, num_threads as nat),
            i <= num_threads,
            ranges@.len() == i,
            forall|j: int| 0 <= j < i ==> #[trigger] ranges@[j] == planned_range(total_size, num_threads as nat, j),
        decreases num_threads - i,
    {
        proof {
            lemma_chunk_bounds(total_size, num_threads as nat, i as int);
        }
        let start: u64 = i as u64 * chunk_size;
        let end: u64 = if i == num_threads - 1 {
            total_size - 1
        } else {
            start + chunk_size - 1
        };
        ranges.push(DownloadRange::new(start, end));
        i = i + 1;
    }
    ranges
}

proof fn lemma_plan_prefix_span(total: u64, n: nat, s: Seq<DownloadRange>, k: int)
    requires
        n >= 1,
        total >= n,
        0 <= k <= n - 1,
        s.len() == n,
        forall|i: int| 0 <= i < n ==> #[trigger] s[i] == planned_range(total, n, i),
    ensures
        sum_span(s.take(k)) == k * chunk_len(total, n),
    decreases k,
{
    if k > 0 {
        lemma_plan_prefix_span(total, n, s, k - 1);
        assert(s.take(k).drop_last() =~= s.take(k - 1));
        lemma_chunk_bounds(total, n, k - 1);
        assert(s.take(k).last() == s[k - 1]);
    } else {
        assert(s.take(0) =~= Seq::<DownloadRange>::empty());
    }
}

/// The planned ranges cut the file exactly: the first starts at byte 0, each
/// starts right after the one before ends, none is empty, the last ends at the
/// last byte of the file, and together they span the whole file.
pub proof fn lemma_plan_partitions(total: u64, n: nat, s: Seq<DownloadRange>)
    requires
        n >= 1,
        total >= n,
        s.len() == n,
        forall|i: int| 0 <= i < n ==> #[trigger] s[i] == planned_range(total, n, i),
    ensures
        s[0].start == 0,
        s[n - 1].end == total - 1,
        forall|i: int| 0 <= i < n - 1 ==> #[trigger] s[i + 1].start == s[i].end + 1,
        forall|i: int| 0 <= i < n ==> (#[trigger] s[i]).consistent() && s[i].span() >= 1,
        forall|i: int| 0 <= i < n ==> !(#[trigger] s[i]).spec_is_completed(),
        sum_span(s) == total,
        sum_downloaded(s) == 0,
        sum_remaining(s) == total,
        spec_pending(s).len() == n,
{
    lemma_chunk_bounds(total, n, 0);
    assert(s[0].start == 0);
    assert forall|i: int| 0 <= i < n - 1 implies #[trigger] s[i + 1].start == s[i].end + 1 by {
        lemma_chunk_bounds(total, n, i);
        lemma_chunk_bounds(total, n, i + 1);
    }
    assert forall|i: int| 0 <= i < n implies (#[trigger] s[i]).consistent() && s[i].span() >= 1 by {
        lemma_chunk_bounds(total, n, i);
    }
    lemma_plan_prefix_span(total, n, s, n - 1);
    lemma_chunk_bounds(total, n, n - 1);
    assert(s.drop_last() =~= s.take(n - 1));
    lemma_fresh_sums(s);
    lemma_progress_conserves_size(s);
}

proof fn lemma_fresh_sums(s: Seq<DownloadRange>)
    requires
        forall|i: int| 0 <= i < s.len() ==> (#[trigger] s[i]).downloaded == 0 && !s[i].completed && s[i].span() >= 1,
    ensures
        sum_downloaded(s) == 0,
        spec_pending(s).len() == s.len(),
    decreases s.len(),
{
    if s.len() > 0 {
        let t = s.drop_last();
        assert forall|i: int| 0 <= i < t.len() implies (#[trigger] t[i]).downloaded == 0 && !t[i].completed && t[i].span() >= 1 by {
            assert(t[i] == s[i]);
        }
        lemma_fresh_sums(t);
        assert(s.last() == s[s.len() - 1]);
    }
}

proof fn lemma_sum_downloaded_prefix(s: Seq<DownloadRange>, k: int)
    requires
        0 <= k <= s.len(),
    ensures
        sum_downloaded(s.take(k)) <= sum_downloaded(s),
        k < s.len() ==> sum_downloaded(s.take(k + 1)) == sum_downloaded(s.take(k)) + s[k].downloaded,
    decreases s.len(),
{
    if k < s.len() {
        assert(s.take(k + 1).drop_last() =~= s.take(k));
        let t = s.drop_last();
        assert(t.take(k) =~= s.take(k));
        lemma_sum_downloaded_prefix(t, k);
        if k + 1 < s.len() {
            lemma_sum_downloaded_prefix(t, k + 1);
            assert(t.take(k + 1) =~= s.take(k + 1));
        } else {
            assert(s.take(k + 1) =~= s);
        }
    } else {
        assert(s.take(k) =~= s);
    }
}

proof fn lemma_sum_remaining_prefix(s: Seq<DownloadRange>, k: int)
    requires
        0 <= k <= s.len(),
        remaining_readable(s),
    ensures
        sum_remaining(s.take(k)) <= sum_remaining(s),
        k < s.len() ==> sum_remaining(s.take(k + 1)) == sum_remaining(s.take(k)) + s[k].spec_remaining(),
    decreases s.len(),
{
    if k < s.len() {
        assert(s.take(k + 1).drop_last() =~= s.take(k));
        let t = s.drop_last();
        assert(remaining_readable(t)) by {
            assert forall|i: int| 0 <= i < t.len() && !(#[trigger] t[i]).completed implies t[i].consistent() by {
                assert(t[i] == s[i]);
            }
        }
        assert(t.take(k) =~= s.take(k));
        assert(s.last() == s[s.len() - 1]);
        lemma_sum_remaining_prefix(t, k);
        if k + 1 < s.len() {
            lemma_sum_remaining_prefix(t, k + 1);
            assert(t.take(k + 1) =~= s.take(k + 1));
        } else {
            assert(s.take(k + 1) =~= s);
        }
    } else {
        assert(s.take(k) =~= s);
    }
}

/// Bytes already booked over all ranges, `None` when the sum does not fit in
/// `u64`; a resumed download starts its counters there.
pub fn total_downloaded(ranges: &Vec<DownloadRange>) -> (r: Option<u64>)
    ensures
        r == (if sum_downloaded(ranges@) <= u64::MAX {
            Some(sum_downloaded(ranges@) as u64)
        } else {
            None::<u64>
        }),
{
    let mut acc: u64 = 0;
    let mut i: usize = 0;
    while i < ranges.len()
        invariant
            i <= ranges@.len(),
            acc == sum_downloaded(ranges@.take(i as int)),
        decreases ranges@.len() - i,
    {
        proof {
            lemma_sum_downloaded_prefix(ranges@, i as int);
            lemma_sum_downloaded_prefix(ranges@, i + 1);
        }
        match acc.checked_add(ranges[i].downloaded) {
            Some(v) => {
                acc = v;
            },
            None => {
                return None;
            },
        }
        i = i + 1;
    }
    assert(ranges@.take(i as int) =~= ranges@);
    Some(acc)
}

/// Whether the remaining bytes of `r` can be computed.
pub fn remaining_computable(r: &DownloadRange) -> (b: bool)
    ensures
        b == (!r.completed ==> r.consistent()),
{
    r.completed || (r.start <= r.end && r.end - r.start < u64::MAX && r.downloaded <= r.end - r.start + 1)
}

/// Bytes still to fetch over all ranges; `None` when some range books more
/// bytes than it spans or has a span that cannot be computed, or when the
/// sum does not fit in `u64`.
pub fn total_remaining(ranges: &Vec<DownloadRange>) -> (r: Option<u64>)
    ensures
        r is Some <==> remaining_readable(ranges@) && sum_remaining(ranges@) <= u64::MAX,
        r matches Some(v) ==> v == sum_remaining(ranges@),
{
    let mut acc: u64 = 0;
    let mut i: usize = 0;
    while i < ranges.len()
        invariant
            i <= ranges@.len(),
            remaining_readable(ranges@.take(i as int)),
            acc == sum_remaining(ranges@.take(i as int)),
        decreases ranges@.len() - i,
    {
        let range = ranges[i];
        if !remaining_computable(&range) {
            assert(!(!ranges@[i as int].completed ==> ranges@[i as int].consistent()));
            return None;
        }
        let ghost t = ranges@.take(i + 1);
        assert(t.drop_last() =~= ranges@.take(i as int));
        assert(t.last() == range);
        assert(remaining_readable(t)) by {
            assert forall|k: int| 0 <= k < t.len() && !(#[trigger] t[k]).completed implies t[k].consistent() by {
                if k < i {
                    assert(t[k] == ranges@.take(i as int)[k]);
                }
            }
        }
        match acc.checked_add(range.remaining()) {
            Some(v) => {
                acc = v;
            },
            None => {
                proof {
                    if remaining_readable(ranges@) {
                        lemma_sum_remaining_prefix(ranges@, i + 1);
                        assert(ranges@.take(i + 1) =~= t);
                    }
                }
                return None;
            },
        }
        i = i + 1;
    }
    assert(ranges@.take(i as int) =~= ranges@);
    Some(acc)
}

/// The ranges that still need bytes, as `(index, span)` pairs in order; each
/// gets a progress bar.  `None` when the span of a range that is not marked
/// completed cannot be computed.
pub fn pending_chunks(ranges: &Vec<DownloadRange>) -> (r: Option<Vec<(usize, u64)>>)
    ensures
        r is Some <==> spans_readable(ranges@),
        r matches Some(v) ==> v@ == spec_pending(ranges@),
{
    let mut out: Vec<(usize, u64)> = Vec::new();
    let mut i: usize = 0;
    while i < ranges.len()
        invariant
            i <= ranges@.len(),
            spans_readable(ranges@.take(i as int)),
            out@ == spec_pending(ranges@.take(i as int)),
        decreases ranges@.len() - i,
    {
        let range = ranges[i];
        let ghost t = ranges@.take(i + 1);
        assert(t.drop_last() =~= ranges@.take(i as int));
        assert(t.last() == range);
        if !range.completed && !(range.start <= range.end && range.end - range.start < u64::MAX) {
            assert(!(!ranges@[i as int].completed ==> ranges@[i as int].span_fits()));
            return None;
        }
        assert(spans_readable(t)) by {
            assert forall|k: int| 0 <= k < t.len() && !(#[trigger] t[k]).completed implies t[k].span_fits() by {
                if k < i {
                    assert(t[k] == ranges@.take(i as int)[k]);
                }
            }
        }
        if !range.is_completed() {
            out.push((i, range.end - range.start + 1));
        }
        i = i + 1;
    }
    assert(ranges@.take(i as int) =~= ranges@);
    Some(out)
}

/// The connections of a concurrent transfer: one per range, in order, so
/// that every range of a resumed state is fetched whatever the number of
/// connections configured now.
pub fn connection_plan(ranges: &Vec<DownloadRange>) -> (r: Vec<usize>)
    ensures
        r@.len() == ranges@.len(),
        forall|k: int| 0 <= k < r@.len() ==> #[trigger] r@[k] == k,
{
    let mut out: Vec<usize> = Vec::new();
    let mut i: usize = 0;
    while i < ranges.len()
        invariant
            i <= ranges@.len(),
            out@.len() == i,
            forall|k: int| 0 <= k < i ==> #[trigger] out@[k] == k,
        decreases ranges@.len() - i,
    {
        out.push(i);
        i = i + 1;
    }
    out
}

/// Every range is given exactly one connection, and every connection a range.
pub proof fn lemma_every_range_has_one_connection(ranges: Seq<DownloadRange>, plan: Seq<usize>)
    requires
        plan.len() == ranges.len(),
        forall|k: int| 0 <= k < plan.len() ==> #[trigger] plan[k] == k,
    ensures
        forall|j: int| 0 <= j < ranges.len() ==> #[trigger] plan.contains(j as usize),
        forall|k: int| 0 <= k < plan.len() ==> #[trigger] plan[k] < ranges.len(),
        forall|k1: int, k2: int| 0 <= k1 < k2 < plan.len() ==> #[trigger] plan[k1] != #[trigger] plan[k2],
{
    assert forall|j: int| 0 <= j < ranges.len() implies #[trigger] plan.contains(j as usize) by {
        assert(plan[j] == j);
    }
}

/// `s` with `len` more bytes booked against range `i`.
pub open spec fn booked(s: Seq<DownloadRange>, i: int, len: u64) -> Seq<DownloadRange> {
    s.update(i, DownloadRange { downloaded: (s[i].downloaded + len) as u64, ..s[i] })
}

/// Books `len` received bytes against range `thread_id`; the other ranges are untouched.
pub fn record_progress(ranges: &mut Vec<DownloadRange>, thread_id: usize, len: u64)
    requires
        thread_id < old(ranges)@.len(),
        old(ranges)@[thread_id as int].downloaded + len <= u64::MAX,
    ensures
        final(ranges)@ == booked(old(ranges)@, thread_id as int, len),
{
    let mut range = ranges[thread_id];
    range.downloaded = range.downloaded + len;
    ranges.set(thread_id, range);
}

/// Marks range `thread_id` as completed; the other ranges are untouched.
pub fn mark_completed(ranges: &mut Vec<DownloadRange>, thread_id: usize)
    requires
        thread_id < old(ranges)@.len(),
    ensures
        final(ranges)@ == old(ranges)@.update(
            thread_id as int,
            DownloadRange { completed: true, ..old(ranges)@[thread_id as int] },
        ),
{
    let mut range = ranges[thread_id];
    range.completed = true;
    ranges.set(thread_id, range);
}

/// Booking bytes against one range raises the total booked by exactly that many bytes.
pub proof fn lemma_booking_adds(s: Seq<DownloadRange>, i: int, len: u64)
    requires
        0 <= i < s.len(),
        s[i].downloaded + len <= u64::MAX,
    ensures
        sum_downloaded(booked(s, i, len)) == sum_downloaded(s) + len,
        sum_span(booked(s, i, len)) == sum_span(s),
    decreases s.len(),
{
    let b = booked(s, i, len);
    if i < s.len() - 1 {
        assert(b.drop_last() =~= booked(s.drop_last(), i, len));
        lemma_booking_adds(s.drop_last(), i, len);
    } else {
        assert(b.drop_last() =~= s.drop_last());
    }
}

/// While no range is marked completed and none books more bytes than it
/// spans, the bytes downloaded and the bytes remaining add up to the bytes
/// the ranges span.
pub proof fn lemma_progress_conserves_size(s: Seq<DownloadRange>)
    requires
        forall|i: int| 0 <= i < s.len() ==> !(#[trigger] s[i]).completed && s[i].consistent(),
    ensures
        sum_downloaded(s) + sum_remaining(s) == sum_span(s),
    decreases s.len(),
{
    if s.len() > 0 {
        let t = s.drop_last();
        assert forall|i: int| 0 <= i < t.len() implies !(#[trigger] t[i]).completed && t[i].consistent() by {
            assert(t[i] == s[i]);
        }
        lemma_progress_conserves_size(t);
        assert(s.last() == s[s.len() - 1]);
    }
}

/// Planned ranges never overlap: every byte of a range comes before every
/// byte of the ranges after it.
pub proof fn lemma_plan_disjoint(total: u64, n: nat, i: int, j: int)
    requires
        n >= 1,
        total >= n,
        0 <= i < j < n,
    ensures
        planned_range(total, n, i).end < planned_range(total, n, j).start,
{
    lemma_chunk_bounds(total, n, i);
    lemma_chunk_bounds(total, n, j);
    let c = chunk_len(total, n);
    assert(j * c >= i * c + c) by (nonlinear_arith)
        requires
            i < j,
            c >= 1,
    ;
}

} // verus!
