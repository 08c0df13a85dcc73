//! The bookkeeping of one connection's transfer: where each received block
//! is written, how it is booked against the connection's range, and when the
//! saved state is refreshed.
use vstd::prelude::*;

use crate::config::DownloadRange;
use crate::http_values::{closed_range_header, spec_closed_range};
use crate::ranges::{booked, record_progress, mark_completed};

verus! {

/// The saved state is refreshed once more than this many bytes (5 MiB) arrived since the last refresh.
pub const SAVE_INTERVAL: u64 = 5242880;

/// Progress of one connection through its range.
#[derive(Clone, Copy, Debug, PartialEq, Eq, Structural)]
pub struct ChunkCursor {
    /// Index of the range this connection fetches.
    pub thread_id: usize,
    /// File offset of the first byte requested.
    pub start_pos: u64,
    /// Last byte of the range.
    pub end: u64,
    /// Bytes received on this connection so far.
    pub received: u64,
    /// Value of `received` when the saved state was last refreshed.
    pub last_save: u64,
}

impl ChunkCursor {
    /// The cursor and the range it fetches agree: the next byte is written
    /// right after the bytes booked against the range.
    pub open spec fn tracks(self, ranges: Seq<DownloadRange>) -> bool {
        &&& self.thread_id < ranges.len()
        &&& ranges[self.thread_id as int].start <= self.start_pos
        &&& self.start_pos + self.received == ranges[self.thread_id as int].start + ranges[self.thread_id as int].downloaded
        &&& self.end == ranges[self.thread_id as int].end
        &&& self.last_save <= self.received
    }

    /// What `begin` asks: the range exists, its span can be computed unless it
    /// is marked completed, and the offset of its next byte fits in `u64`
    /// unless it needs no more bytes.
    pub open spec fn can_start(ranges: Seq<DownloadRange>, thread_id: usize) -> bool {
        &&& thread_id < ranges.len()
        &&& !ranges[thread_id as int].completed ==> ranges[thread_id as int].span_fits()
        &&& !ranges[thread_id as int].spec_is_completed() ==> ranges[thread_id as int].start
            + ranges[thread_id as int].downloaded <= u64::MAX
    }

    /// Whether `begin` can be asked for range `thread_id`.
    pub fn can_begin(ranges: &Vec<DownloadRange>, thread_id: usize) -> (r: bool)
        ensures
            r == Self::can_start(ranges@, thread_id),
    {
        if thread_id >= ranges.len() {
            return false;
        }
        let range = ranges[thread_id];
        if range.completed {
            return true;
        }
        if !(range.start <= range.end && range.end - range.start < u64::MAX) {
            return false;
        }
        range.is_completed() || range.start <= u64::MAX - range.downloaded
    }

    /// Starts fetching range `thread_id`: `None` when it needs no more bytes,
    /// otherwise a cursor that asks for the rest of the range, from
    /// `start + downloaded` to `end`.
    pub fn begin(ranges: &Vec<DownloadRange>, thread_id: usize) -> (r: Option<ChunkCursor>)
        requires
            Self::can_start(ranges@, thread_id),
        ensures
            ranges@[thread_id as int].spec_is_completed() <==> r is None,
            r matches Some(c) ==> {
                &&& c.thread_id == thread_id
                &&& c.start_pos == ranges@[thread_id as int].start + ranges@[thread_id as int].downloaded
                &&& c.end == ranges@[thread_id as int].end
                &&& c.received == 0
                &&& c.last_save == 0
                &&& c.tracks(ranges@)
            },
    {
        let range = ranges[thread_id];
        if range.is_completed() {
            return None;
        }
        Some(ChunkCursor {
            thread_id,
            start_pos: range.start + range.downloaded,
            end: range.end,
            received: 0,
            last_save: 0,
        })
    }

    /// The `Range` header value `bytes=START-END` this connection sends.
    pub fn range_header(&self) -> (r: Vec<u8>)
        ensures
            r@ == spec_closed_range(self.start_pos, self.end),
    {
        closed_range_header(self.start_pos, self.end)
    }

    /// The file offset where the next received block is written; `None` when it does not fit in `u64`.
    pub fn write_offset(&self) -> (r: Option<u64>)
        ensures
            r == (if self.start_pos + self.received <= u64::MAX {
                Some((self.start_pos + self.received) as u64)
            } else {
                None::<u64>
            }),
    {
        self.start_pos.checked_add(self.received)
    }

    /// What `on_block` asks of a block of `len` bytes: no counter overflows.
    pub open spec fn can_take(self, ranges: Seq<DownloadRange>, len: u64) -> bool {
        &&& self.thread_id < ranges.len()
        &&& self.last_save <= self.received
        &&& self.start_pos + self.received <= u64::MAX
        &&& self.received + len <= u64::MAX
        &&& ranges[self.thread_id as int].downloaded + len <= u64::MAX
    }

    /// Whether a block of `len` bytes can be taken without a counter overflowing.
    pub fn accepts(&self, ranges: &Vec<DownloadRange>, len: u64) -> (r: bool)
        ensures
            r == self.can_take(ranges@, len),
    {
        self.thread_id < ranges.len()
            && self.last_save <= self.received
            && self.start_pos <= u64::MAX - self.received
            && self.received <= u64::MAX - len
            && ranges[self.thread_id].downloaded <= u64::MAX - len
    }

    /// The cursor after a block of `len` bytes.
    pub open spec fn after_block(self, len: u64) -> ChunkCursor {
        let received: u64 = (self.received + len) as u64;
        ChunkCursor {
            received,
            last_save: if received - self.last_save > SAVE_INTERVAL {
                received
            } else {
                self.last_save
            },
            ..self
        }
    }

    /// A block of `len` bytes makes a refresh of the saved state due.
    pub open spec fn block_saves(self, len: u64) -> bool {
        self.received + len - self.last_save > SAVE_INTERVAL
    }

    /// Takes a block of `len` bytes that was written at `write_offset()`: the
    /// cursor and the range both advance by `len`.  Returns whether the saved
    /// state is due for a refresh, that is whether more than `SAVE_INTERVAL`
    /// bytes arrived since the last refresh; if so the refresh is counted.
    pub fn on_block(&mut self, ranges: &mut Vec<DownloadRange>, len: u64) -> (save: bool)
        requires
            old(self).can_take(old(ranges)@, len),
        ensures
            final(ranges)@ == booked(old(ranges)@, old(self).thread_id as int, len),
            *final(self) == old(self).after_block(len),
            save == old(self).block_saves(len),
    {
        self.received = self.received + len;
        record_progress(ranges, self.thread_id, len);
        if self.received - self.last_save > SAVE_INTERVAL {
            self.last_save = self.received;
            true
        } else {
            false
        }
    }

    /// The range has been received to its end: it is marked completed.
    pub fn finish(&self, ranges: &mut Vec<DownloadRange>)
        requires
            self.thread_id < old(ranges)@.len(),
        ensures
            final(ranges)@ == old(ranges)@.update(
                self.thread_id as int,
                DownloadRange { completed: true, ..old(ranges)@[self.thread_id as int] },
            ),
    {
        mark_completed(ranges, self.thread_id);
    }
}

/// Taking a block keeps the cursor in step with its range, so consecutive
/// blocks land back to back in the file; no other range changes; and never
/// more than `SAVE_INTERVAL` bytes are left received since the last refresh
/// of the saved state.
pub proof fn lemma_block_keeps_cursor_in_step(c: ChunkCursor, ranges: Seq<DownloadRange>, len: u64)
    requires
        c.tracks(ranges),
        c.can_take(ranges, len),
    ensures
        c.after_block(len).tracks(booked(ranges, c.thread_id as int, len)),
        c.after_block(len).start_pos + c.after_block(len).received == c.start_pos + c.received + len,
        c.after_block(len).received - c.after_block(len).last_save <= SAVE_INTERVAL,
        forall|j: int|
            0 <= j < ranges.len() && j != c.thread_id ==> #[trigger] booked(ranges, c.thread_id as int, len)[j]
                == ranges[j],
{
}

/// A connection can start on any range of the vector whose span can be
/// computed, that books no more bytes than it spans, and whose next byte's
/// offset fits in `u64`, however many of its bytes were already downloaded;
/// it then asks for bytes `start + downloaded ..= end`.
pub proof fn lemma_partly_downloaded_range_can_resume(ranges: Seq<DownloadRange>, thread_id: usize)
    requires
        thread_id < ranges.len(),
        ranges[thread_id as int].start <= ranges[thread_id as int].end,
        ranges[thread_id as int].end - ranges[thread_id as int].start < u64::MAX,
        ranges[thread_id as int].downloaded <= ranges[thread_id as int].end - ranges[thread_id as int].start + 1,
        ranges[thread_id as int].start + ranges[thread_id as int].downloaded <= u64::MAX,
    ensures
        ChunkCursor::can_start(ranges, thread_id),
{
}

/// As long as the server sends no more than the bytes asked for, every block
/// is written inside the connection's own range; since planned ranges do not
/// overlap, two connections never write the same byte.
pub proof fn lemma_block_stays_in_range(c: ChunkCursor, ranges: Seq<DownloadRange>, len: u64)
    requires
        c.tracks(ranges),
        len > 0,
        c.received + len <= c.end - c.start_pos + 1,
    ensures
        ranges[c.thread_id as int].start <= c.start_pos + c.received,
        c.start_pos + c.received + len - 1 <= ranges[c.thread_id as int].end,
{
}

/// Position of a single-connection transfer in a file of `total` bytes.
#[derive(Clone, Copy, Debug, PartialEq, Eq, Structural)]
pub struct StreamPosition {
    pub downloaded: u64,
    pub total: u64,
}

impl StreamPosition {
    /// Starts at `start_pos`, the size of what is already on disk (0 for a fresh download).
    pub fn new(start_pos: u64, total: u64) -> (r: Self)
        ensures
            r.downloaded == start_pos,
            r.total == total,
    {
        StreamPosition { downloaded: start_pos, total }
    }

    /// Nothing is left to fetch: what is on disk already reaches the announced size.
    pub fn already_complete(&self) -> (r: bool)
        ensures
            r == (self.downloaded >= self.total),
    {
        self.downloaded >= self.total
    }

    /// The position after a block of `len` bytes: it moves by `len` but never past the total.
    pub open spec fn advanced(self, len: u64) -> StreamPosition {
        StreamPosition {
            downloaded: if self.downloaded + len < self.total {
                (self.downloaded + len) as u64
            } else {
                self.total
            },
            total: self.total,
        }
    }

    /// Advances by a received block of `len` bytes.
    pub fn advance(&mut self, len: u64)
        requires
            old(self).downloaded + len <= u64::MAX,
        ensures
            *final(self) == old(self).advanced(len),
    {
        let next: u64 = self.downloaded + len;
        self.downloaded = if next < self.total { next } else { self.total };
    }
}

/// The position of a single-connection transfer never decreases while it is
/// within the total, and never passes the total.
pub proof fn lemma_advance_monotone(p: StreamPosition, len: u64)
    requires
        p.downloaded <= p.total,
    ensures
        p.downloaded <= p.advanced(len).downloaded <= p.advanced(len).total,
        p.advanced(len).downloaded == p.total || p.advanced(len).downloaded == p.downloaded + len,
{
}

} // verus!
