//! The counters behind the progress display: bytes received, the window
//! over which the speed is measured, and which connections are still active.
//! Times are nanoseconds on a clock the caller reads; the bars themselves are
//! drawn by the caller.
use vstd::prelude::*;

verus! {

/// The speed is measured over windows of at least 2 s.
pub const MEASURE_WINDOW_NS: u64 = 2_000_000_000;
/// Between 0.5 s and 2 s an estimate is shown when bytes arrived.
pub const ESTIMATE_WINDOW_NS: u64 = 500_000_000;
/// No measurement for more than 2 minutes means the download looks stalled.
pub const STALL_NS: u64 = 120_000_000_000;

/// The progress slot of one connection.
#[derive(Clone, Copy, Debug, PartialEq, Eq, Structural)]
pub struct ChunkSlot {
    /// Bytes the connection has to fetch (0 for a placeholder).
    pub total: u64,
    /// The slot was filled for a connection, not only reserved.
    pub assigned: bool,
    /// The slot's bar was finished.
    pub finished: bool,
}

/// What an update asks the display to show about the speed.
#[derive(Clone, Copy, Debug, PartialEq, Eq, Structural)]
pub enum SpeedReport {
    /// There is no main bar yet: nothing was counted.
    NoBar,
    /// Nothing new to show.
    Quiet,
    /// `bytes` arrived over `elapsed_ns` (at least 2 s); the window restarts now.
    Measured { bytes: u64, elapsed_ns: u64 },
    /// `bytes` (more than 0) arrived over `elapsed_ns` (0.5 s to 2 s); the window goes on.
    Estimated { bytes: u64, elapsed_ns: u64 },
}

/// The abstract state of the counters.
pub ghost struct ProgressView {
    /// Length of the main bar, once it exists.
    pub main: Option<u64>,
    pub main_finished: bool,
    /// When the main bar was started.
    pub started_at: Option<u64>,
    /// Bytes received so far.
    pub downloaded: u64,
    /// Start of the current speed window.
    pub window_start: u64,
    /// Bytes received when the current speed window started.
    pub window_bytes: u64,
    pub chunks: Seq<ChunkSlot>,
}

/// Counters of a download's progress display.
#[derive(Clone, Debug)]
pub struct ProgressTracker {
    main: Option<u64>,
    main_finished: bool,
    started_at: Option<u64>,
    downloaded: u64,
    window_start: u64,
    window_bytes: u64,
    chunks: Vec<ChunkSlot>,
}

/// `now - then`, or 0 when the clock reads earlier than `then`.
pub open spec fn since(now: u64, then: u64) -> u64 {
    if now >= then {
        (now - then) as u64
    } else {
        0
    }
}

/// The slot belongs to a connection whose bar is not finished.
pub open spec fn slot_active(c: ChunkSlot) -> bool {
    c.assigned && !c.finished
}

/// Number of connections with an unfinished bar; reserved placeholder slots do not count.
pub open spec fn count_active(s: Seq<ChunkSlot>) -> nat
    decreases s.len(),
{
    if s.len() == 0 {
        0
    } else {
        count_active(s.drop_last()) + if slot_active(s.last()) {
            1nat
        } else {
            0nat
        }
    }
}

/// The slots after reserving up to index `i` and giving slot `i` a bar of `total` bytes.
pub open spec fn with_chunk(s: Seq<ChunkSlot>, i: int, total: u64) -> Seq<ChunkSlot> {
    let placeholder = ChunkSlot { total: 0, assigned: false, finished: false };
    let grown = if s.len() <= i {
        s + Seq::new((i + 1 - s.len()) as nat, |k: int| placeholder)
    } else {
        s
    };
    grown.update(i, ChunkSlot { total, assigned: true, finished: false })
}

/// What `update_main` asks of an update of `increment` bytes at `now_ns`:
/// the byte counter does not overflow, and the bytes of the speed window can
/// be computed when the window is read.
pub open spec fn spec_update_fits(v: ProgressView, increment: u64, now_ns: u64) -> bool {
    v.main is Some ==> {
        &&& v.downloaded + increment <= u64::MAX
        &&& since(now_ns, v.window_start) >= ESTIMATE_WINDOW_NS ==> v.window_bytes <= v.downloaded + increment
    }
}

/// The counters and the speed report after `increment` bytes arrive at
/// `now_ns`.  Without a main bar nothing is counted.  A window open for at
/// least 2 s is measured and restarted; a window open for 0.5 s to 2 s in
/// which bytes arrived gives an estimate.
pub open spec fn spec_update(v: ProgressView, increment: u64, now_ns: u64) -> (ProgressView, SpeedReport) {
    if v.main is None {
        (v, SpeedReport::NoBar)
    } else {
        let d: u64 = (v.downloaded + increment) as u64;
        let elapsed: u64 = since(now_ns, v.window_start);
        if elapsed >= MEASURE_WINDOW_NS {
            (
                ProgressView { downloaded: d, window_start: now_ns, window_bytes: d, ..v },
                SpeedReport::Measured { bytes: (d - v.window_bytes) as u64, elapsed_ns: elapsed },
            )
        } else {
            (
                ProgressView { downloaded: d, ..v },
                if elapsed >= ESTIMATE_WINDOW_NS && d > v.window_bytes {
                    SpeedReport::Estimated { bytes: (d - v.window_bytes) as u64, elapsed_ns: elapsed }
                } else {
                    SpeedReport::Quiet
                },
            )
        }
    }
}

/// The counters after a sequence of `(increment, time)` updates.
pub open spec fn apply_updates(v: ProgressView, updates: Seq<(u64, u64)>) -> ProgressView
    decreases updates.len(),
{
    if updates.len() == 0 {
        v
    } else {
        spec_update(apply_updates(v, updates.drop_last()), updates.last().0, updates.last().1).0
    }
}

/// Sum of the increments of a sequence of updates.
pub open spec fn sum_increments(updates: Seq<(u64, u64)>) -> int
    decreases updates.len(),
{
    if updates.len() == 0 {
        0
    } else {
        sum_increments(updates.drop_last()) + updates.last().0
    }
}

impl View for ProgressTracker {
    type V = ProgressView;

    closed spec fn view(&self) -> ProgressView {
        ProgressView {
            main: self.main,
            main_finished: self.main_finished,
            started_at: self.started_at,
            downloaded: self.downloaded,
            window_start: self.window_start,
            window_bytes: self.window_bytes,
            chunks: self.chunks@,
        }
    }
}

proof fn lemma_count_active_bound(s: Seq<ChunkSlot>)
    ensures
        count_active(s) <= s.len(),
    decreases s.len(),
{
    if s.len() > 0 {
        lemma_count_active_bound(s.drop_last());
    }
}

proof fn lemma_count_active_prefix(s: Seq<ChunkSlot>, k: int)
    requires
        0 <= k < s.len(),
    ensures
        count_active(s.take(k + 1)) == count_active(s.take(k)) + if slot_active(s[k]) {
            1nat
        } else {
            0nat
        },
{
    assert(s.take(k + 1).drop_last() =~= s.take(k));
}

proof fn lemma_count_active_update(s: Seq<ChunkSlot>, i: int, c: ChunkSlot)
    requires
        0 <= i < s.len(),
    ensures
        count_active(s.update(i, c)) + (if slot_active(s[i]) { 1int } else { 0int })
            == count_active(s) + (if slot_active(c) { 1int } else { 0int }),
    decreases s.len(),
{
    let u = s.update(i, c);
    if i < s.len() - 1 {
        assert(u.drop_last() =~= s.drop_last().update(i, c));
        lemma_count_active_update(s.drop_last(), i, c);
        assert(u.last() == s.last());
    } else {
        assert(u.drop_last() =~= s.drop_last());
    }
}

proof fn lemma_all_finished(s: Seq<ChunkSlot>)
    requires
        forall|i: int| 0 <= i < s.len() ==> (#[trigger] s[i]).finished,
    ensures
        count_active(s) == 0,
    decreases s.len(),
{
    if s.len() > 0 {
        let t = s.drop_last();
        assert forall|i: int| 0 <= i < t.len() implies (#[trigger] t[i]).finished by {
            assert(t[i] == s[i]);
        }
        lemma_all_finished(t);
        assert(s.last() == s[s.len() - 1]);
    }
}

fn reserve_slots(chunks: &mut Vec<ChunkSlot>, len: usize)
    requires
        old(chunks)@.len() <= len,
    ensures
        final(chunks)@ == old(chunks)@ + Seq::new(
            (len - old(chunks)@.len()) as nat,
            |k: int| ChunkSlot { total: 0, assigned: false, finished: false },
        ),
{
    let placeholder = ChunkSlot { total: 0, assigned: false, finished: false };
    let ghost old_chunks = chunks@;
    while chunks.len() < len
        invariant
            old_chunks.len() <= chunks@.len() <= len,
            chunks@ =~= old_chunks + Seq::new((chunks@.len() - old_chunks.len()) as nat, |k: int| placeholder),
        decreases len - chunks@.len(),
    {
        chunks.push(placeholder);
    }
}

fn finish_all(chunks: &mut Vec<ChunkSlot>)
    ensures
        final(chunks)@.len() == old(chunks)@.len(),
        forall|i: int| 0 <= i < old(chunks)@.len() ==> #[trigger] final(chunks)@[i] == (ChunkSlot { finished: true, ..old(chunks)@[i] }),
{
    let ghost old_chunks = chunks@;
    let mut i: usize = 0;
    while i < chunks.len()
        invariant
            i <= chunks@.len(),
            chunks@.len() == old_chunks.len(),
            forall|k: int| 0 <= k < i ==> #[trigger] chunks@[k] == (ChunkSlot { finished: true, ..old_chunks[k] }),
            forall|k: int| i <= k < old_chunks.len() ==> #[trigger] chunks@[k] == old_chunks[k],
        decreases chunks@.len() - i,
    {
        let mut slot = chunks[i];
        slot.finished = true;
        chunks.set(i, slot);
        i = i + 1;
    }
}

impl ProgressTracker {
    /// Fresh counters at time `now_ns`: no main bar, nothing received, the speed window opening now.
    pub fn new(now_ns: u64) -> (t: Self)
        ensures
            t@ == (ProgressView {
                main: None,
                main_finished: false,
                started_at: None,
                downloaded: 0,
                window_start: now_ns,
                window_bytes: 0,
                chunks: Seq::empty(),
            }),
    {
        ProgressTracker {
            main: None,
            main_finished: false,
            started_at: None,
            downloaded: 0,
            window_start: now_ns,
            window_bytes: 0,
            chunks: Vec::new(),
        }
    }

    /// Creates the main bar of `total_size` bytes, already at `initial_downloaded`,
    /// and starts the clock; the speed window keeps its start.
    pub fn init_main(&mut self, total_size: u64, initial_downloaded: u64, now_ns: u64)
        ensures
            final(self)@ == (ProgressView {
                main: Some(total_size),
                main_finished: false,
                started_at: Some(now_ns),
                downloaded: initial_downloaded,
                window_bytes: initial_downloaded,
                ..old(self)@
            }),
    {
        self.main = Some(total_size);
        self.main_finished = false;
        self.started_at = Some(now_ns);
        self.downloaded = initial_downloaded;
        self.window_bytes = initial_downloaded;
    }

    /// Gives connection `thread_id` a bar of `total_size` bytes, reserving
    /// placeholder slots for the lower indices that have none yet.
    pub fn add_chunk(&mut self, thread_id: usize, total_size: u64)
        requires
            thread_id < usize::MAX,
        ensures
            final(self)@ == (ProgressView {
                chunks: with_chunk(old(self)@.chunks, thread_id as int, total_size),
                ..old(self)@
            }),
    {
        let ghost old_chunks = self.chunks@;
        if self.chunks.len() <= thread_id {
            reserve_slots(&mut self.chunks, thread_id + 1);
        }
        self.chunks.set(thread_id, ChunkSlot { total: total_size, assigned: true, finished: false });
        assert(self.chunks@ =~= with_chunk(old_chunks, thread_id as int, total_size));
    }

    /// Finishes the bar of connection `thread_id`: its slot is marked finished,
    /// every other slot is left as it was, and the number of active
    /// connections drops by one when that connection was active.  An index
    /// without a slot changes nothing.
    pub fn finish_chunk(&mut self, thread_id: usize)
        ensures
            thread_id < old(self)@.chunks.len() ==> final(self)@ == (ProgressView {
                chunks: old(self)@.chunks.update(
                    thread_id as int,
                    ChunkSlot { finished: true, ..old(self)@.chunks[thread_id as int] },
                ),
                ..old(self)@
            }),
            thread_id >= old(self)@.chunks.len() ==> final(self)@ == old(self)@,
            count_active(final(self)@.chunks) == if thread_id < old(self)@.chunks.len() && slot_active(
                old(self)@.chunks[thread_id as int],
            ) {
                (count_active(old(self)@.chunks) - 1) as nat
            } else {
                count_active(old(self)@.chunks)
            },
    {
        if thread_id < self.chunks.len() {
            let ghost old_chunks = self.chunks@;
            let mut slot = self.chunks[thread_id];
            slot.finished = true;
            self.chunks.set(thread_id, slot);
            proof {
                lemma_count_active_update(old_chunks, thread_id as int, slot);
            }
        }
    }

    /// Whether `update_main` can take `increment` bytes at `now_ns`.
    pub fn update_allowed(&self, increment: u64, now_ns: u64) -> (r: bool)
        ensures
            r == spec_update_fits(self@, increment, now_ns),
    {
        match self.main {
            None => true,
            Some(_) => {
                if self.downloaded > u64::MAX - increment {
                    false
                } else {
                    let elapsed: u64 = now_ns.saturating_sub(self.window_start);
                    elapsed < ESTIMATE_WINDOW_NS || self.window_bytes <= self.downloaded + increment
                }
            },
        }
    }

    /// Counts `increment` received bytes at `now_ns` and says what the speed
    /// display should show (see `spec_update`).
    pub fn update_main(&mut self, increment: u64, now_ns: u64) -> (rep: SpeedReport)
        requires
            spec_update_fits(old(self)@, increment, now_ns),
        ensures
            (final(self)@, rep) == spec_update(old(self)@, increment, now_ns),
    {
        if self.main.is_none() {
            return SpeedReport::NoBar;
        }
        self.downloaded = self.downloaded + increment;
        let elapsed: u64 = now_ns.saturating_sub(self.window_start);
        if elapsed >= MEASURE_WINDOW_NS {
            let bytes: u64 = self.downloaded - self.window_bytes;
            self.window_bytes = self.downloaded;
            self.window_start = now_ns;
            SpeedReport::Measured { bytes, elapsed_ns: elapsed }
        } else if elapsed >= ESTIMATE_WINDOW_NS {
            let bytes: u64 = self.downloaded - self.window_bytes;
            if bytes > 0 {
                SpeedReport::Estimated { bytes, elapsed_ns: elapsed }
            } else {
                SpeedReport::Quiet
            }
        } else {
            SpeedReport::Quiet
        }
    }

    /// Finishes the main bar and every connection's bar.  Returns the bytes
    /// received and the time since the start, for the average speed, when the
    /// clock was started and some time passed.  Without a main bar nothing changes.
    pub fn finish_main(&mut self, now_ns: u64) -> (avg: Option<(u64, u64)>)
        ensures
            old(self)@.main is None ==> avg is None && final(self)@ == old(self)@,
            old(self)@.main is Some ==> {
                &&& final(self)@.main_finished
                &&& final(self)@.chunks.len() == old(self)@.chunks.len()
                &&& forall|i: int| 0 <= i < old(self)@.chunks.len() ==> #[trigger] final(self)@.chunks[i] == (ChunkSlot { finished: true, ..old(self)@.chunks[i] })
                &&& final(self)@ == (ProgressView { main_finished: true, chunks: final(self)@.chunks, ..old(self)@ })
                &&& avg == (match old(self)@.started_at {
                    Some(s) => if since(now_ns, s) > 0 {
                        Some((old(self)@.downloaded, since(now_ns, s)))
                    } else {
                        None
                    },
                    None => None,
                })
            },
    {
        if self.main.is_none() {
            return None;
        }
        let avg = match self.started_at {
            Some(s) => {
                let elapsed: u64 = now_ns.saturating_sub(s);
                if elapsed > 0 {
                    Some((self.downloaded, elapsed))
                } else {
                    None
                }
            },
            None => None,
        };
        self.main_finished = true;
        finish_all(&mut self.chunks);
        avg
    }

    /// Number of connections whose bar is not finished (placeholders do not count).
    pub fn active_threads(&self) -> (n: usize)
        ensures
            n == count_active(self@.chunks),
    {
        let mut n: usize = 0;
        let mut i: usize = 0;
        while i < self.chunks.len()
            invariant
                i <= self.chunks@.len(),
                n == count_active(self.chunks@.take(i as int)),
                n <= i,
            decreases self.chunks@.len() - i,
        {
            proof {
                lemma_count_active_prefix(self.chunks@, i as int);
            }
            let slot = self.chunks[i];
            if slot.assigned && !slot.finished {
                n = n + 1;
            }
            i = i + 1;
        }
        assert(self.chunks@.take(i as int) =~= self.chunks@);
        n
    }

    /// The download looks stalled: the speed window has been open for more than 2 minutes.
    pub fn check_stalled(&self, now_ns: u64) -> (r: bool)
        ensures
            r == (since(now_ns, self@.window_start) > STALL_NS),
    {
        now_ns.saturating_sub(self.window_start) > STALL_NS
    }

    /// Bytes received so far.
    pub fn total_downloaded(&self) -> (n: u64)
        ensures
            n == self@.downloaded,
    {
        self.downloaded
    }

    /// For the speed of a single-connection transfer: `downloaded` and the
    /// time since the start, when the clock was started and some time passed.
    pub fn simple_speed(&self, downloaded: u64, now_ns: u64) -> (r: Option<(u64, u64)>)
        ensures
            r == (match self@.started_at {
                Some(s) => if since(now_ns, s) > 0 {
                    Some((downloaded, since(now_ns, s)))
                } else {
                    None
                },
                None => None,
            }),
    {
        match self.started_at {
            Some(s) => {
                let elapsed: u64 = now_ns.saturating_sub(s);
                if elapsed > 0 {
                    Some((downloaded, elapsed))
                } else {
                    None
                }
            },
            None => None,
        }
    }

    /// Sets the count of bytes received.
    pub fn set_downloaded_bytes(&mut self, bytes: u64)
        ensures
            final(self)@ == (ProgressView { downloaded: bytes, ..old(self)@ }),
    {
        self.downloaded = bytes;
    }

    /// Sets when the download started.
    pub fn set_start_time(&mut self, start_ns: u64)
        ensures
            final(self)@ == (ProgressView { started_at: Some(start_ns), ..old(self)@ }),
    {
        self.started_at = Some(start_ns);
    }
}

/// Once the main bar is finished no connection counts as active, and the
/// number of active connections never exceeds the number of slots.
pub proof fn lemma_finish_leaves_no_active_thread(before: ProgressView, after: ProgressView)
    requires
        before.main is Some,
        after.chunks.len() == before.chunks.len(),
        forall|i: int| 0 <= i < before.chunks.len() ==> #[trigger] after.chunks[i] == (ChunkSlot { finished: true, ..before.chunks[i] }),
    ensures
        count_active(after.chunks) == 0,
        count_active(before.chunks) <= before.chunks.len(),
{
    assert forall|i: int| 0 <= i < after.chunks.len() implies (#[trigger] after.chunks[i]).finished by {
        assert(after.chunks[i] == (ChunkSlot { finished: true, ..before.chunks[i] }));
    }
    lemma_all_finished(after.chunks);
    lemma_count_active_bound(before.chunks);
}

/// Once the main bar exists, the count of bytes received is the count it was
/// started with plus every increment since, whatever the times of the updates;
/// the main bar and the connection slots are left as they were.
pub proof fn lemma_updates_accumulate(v: ProgressView, updates: Seq<(u64, u64)>)
    requires
        v.main is Some,
        v.downloaded + sum_increments(updates) <= u64::MAX,
    ensures
        apply_updates(v, updates).downloaded == v.downloaded + sum_increments(updates),
        apply_updates(v, updates).main == v.main,
        apply_updates(v, updates).chunks == v.chunks,
        apply_updates(v, updates).started_at == v.started_at,
    decreases updates.len(),
{
    if updates.len() > 0 {
        lemma_updates_accumulate(v, updates.drop_last());
    }
}

/// Giving a connection its bar adds one active connection, unless that
/// connection already had an unfinished bar; the placeholders reserved below
/// it do not count, and the slot is active afterwards.
pub proof fn lemma_add_chunk_adds_one_active(s: Seq<ChunkSlot>, i: int, total: u64)
    requires
        0 <= i,
    ensures
        with_chunk(s, i, total).len() == (if s.len() <= i { i + 1 } else { s.len() as int }),
        with_chunk(s, i, total)[i].assigned && !with_chunk(s, i, total)[i].finished,
        with_chunk(s, i, total)[i].total == total,
        count_active(with_chunk(s, i, total)) == count_active(s) + (if i < s.len() && s[i].assigned && !s[i].finished {
            0int
        } else {
            1int
        }),
{
    let placeholder = ChunkSlot { total: 0, assigned: false, finished: false };
    if s.len() <= i {
        let pad = Seq::new((i + 1 - s.len()) as nat, |k: int| placeholder);
        let grown = s + pad;
        lemma_count_active_padding(s, (i + 1 - s.len()) as nat);
        lemma_count_active_update(grown, i, ChunkSlot { total, assigned: true, finished: false });
    } else {
        lemma_count_active_update(s, i, ChunkSlot { total, assigned: true, finished: false });
    }
}

proof fn lemma_count_active_padding(s: Seq<ChunkSlot>, k: nat)
    ensures
        count_active(s + Seq::new(k, |j: int| ChunkSlot { total: 0, assigned: false, finished: false })) == count_active(s),
    decreases k,
{
    let placeholder = ChunkSlot { total: 0, assigned: false, finished: false };
    if k > 0 {
        let g = s + Seq::new(k, |j: int| placeholder);
        assert(g.drop_last() =~= s + Seq::new((k - 1) as nat, |j: int| placeholder));
        lemma_count_active_padding(s, (k - 1) as nat);
        assert(g.last() == placeholder);
    } else {
        assert(s + Seq::new(0, |j: int| placeholder) =~= s);
    }
}

/// A speed report covers the window that is open: its time is the time since
/// the window opened (the last measurement, or the creation of the counters)
/// and its bytes are those counted since then.  A measurement covers at least
/// 2 s, an estimate between 0.5 s and 2 s, and an estimate only reports bytes
/// that arrived.
pub proof fn lemma_report_covers_open_window(v: ProgressView, increment: u64, now_ns: u64)
    requires
        v.main is Some,
        spec_update_fits(v, increment, now_ns),
    ensures
        spec_update(v, increment, now_ns).1 matches SpeedReport::Estimated { bytes, elapsed_ns } ==> {
            &&& now_ns >= v.window_start
            &&& elapsed_ns == now_ns - v.window_start
            &&& 500_000_000 <= elapsed_ns < 2_000_000_000
            &&& bytes == v.downloaded + increment - v.window_bytes
            &&& bytes > 0
        },
        spec_update(v, increment, now_ns).1 matches SpeedReport::Measured { bytes, elapsed_ns } ==> {
            &&& now_ns >= v.window_start
            &&& elapsed_ns == now_ns - v.window_start
            &&& elapsed_ns >= 2_000_000_000
            &&& bytes == v.downloaded + increment - v.window_bytes
        },
        (now_ns >= v.window_start && now_ns - v.window_start >= 2_000_000_000) ==> spec_update(v, increment, now_ns).1 is Measured,
        (now_ns >= v.window_start && 500_000_000 <= now_ns - v.window_start < 2_000_000_000
            && v.downloaded + increment > v.window_bytes) ==> spec_update(v, increment, now_ns).1 is Estimated,
{
}

/// Two updates in a row: after a measurement at `t1`, an estimate at a later
/// `t2` reports the time `t2 - t1` and the bytes counted after `t1`.
pub proof fn lemma_estimate_after_measurement(v: ProgressView, i1: u64, t1: u64, i2: u64, t2: u64)
    requires
        v.main is Some,
        spec_update_fits(v, i1, t1),
        spec_update(v, i1, t1).1 is Measured,
        spec_update_fits(spec_update(v, i1, t1).0, i2, t2),
        spec_update(spec_update(v, i1, t1).0, i2, t2).1 is Estimated,
    ensures
        t2 >= t1,
        spec_update(spec_update(v, i1, t1).0, i2, t2).1->Estimated_elapsed_ns == t2 - t1,
        spec_update(spec_update(v, i1, t1).0, i2, t2).1->Estimated_bytes == i2,
{
}

/// A measurement restarts the speed window: right after one the download does
/// not look stalled, and the bytes it reports are exactly those counted since
/// the window opened.
pub proof fn lemma_measurement_clears_stall(v: ProgressView, increment: u64, now_ns: u64)
    requires
        v.main is Some,
        spec_update_fits(v, increment, now_ns),
        spec_update(v, increment, now_ns).1 is Measured,
    ensures
        since(now_ns, spec_update(v, increment, now_ns).0.window_start) <= STALL_NS,
        v.window_bytes + spec_update(v, increment, now_ns).1->Measured_bytes == v.downloaded + increment,
{
}

} // verus!
