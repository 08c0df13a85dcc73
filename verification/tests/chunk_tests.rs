use nget::chunk::{ChunkCursor, StreamPosition, SAVE_INTERVAL};
use nget::ranges::plan_ranges;
use nget::DownloadRange;

#[test]
fn begin_skips_finished_ranges() {
    let mut r = plan_ranges(100, 2);
    r[0].downloaded = 50;
    assert!(ChunkCursor::can_begin(&r, 0));
    assert_eq!(ChunkCursor::begin(&r, 0), None);
    r[1].completed = true;
    assert_eq!(ChunkCursor::begin(&r, 1), None);
    assert!(!ChunkCursor::can_begin(&r, 2));
}

#[test]
fn begin_resumes_after_downloaded_bytes() {
    let mut r = plan_ranges(100, 2);
    r[1].downloaded = 20;
    let c = ChunkCursor::begin(&r, 1).unwrap();
    assert_eq!(c, ChunkCursor { thread_id: 1, start_pos: 70, end: 99, received: 0, last_save: 0 });
    assert_eq!(c.range_header(), b"bytes=70-99");
    assert_eq!(c.write_offset(), Some(70));
}

#[test]
fn blocks_land_back_to_back() {
    let mut r = plan_ranges(100, 2);
    let mut c = ChunkCursor::begin(&r, 0).unwrap();
    assert!(c.accepts(&r, 10));
    assert!(!c.on_block(&mut r, 10));
    assert_eq!(c.write_offset(), Some(10));
    assert!(!c.on_block(&mut r, 15));
    assert_eq!(c.write_offset(), Some(25));
    assert_eq!(r[0].downloaded, 25);
    assert_eq!(r[1], DownloadRange::new(50, 99));
    c.finish(&mut r);
    assert!(r[0].completed);
}

#[test]
fn state_refresh_after_five_mebibytes() {
    let mut r = plan_ranges(64 * 1024 * 1024, 2);
    let mut c = ChunkCursor::begin(&r, 0).unwrap();
    assert!(!c.on_block(&mut r, SAVE_INTERVAL));
    assert!(c.on_block(&mut r, 1));
    assert_eq!(c.last_save, SAVE_INTERVAL + 1);
    assert!(!c.on_block(&mut r, 4 * 1024 * 1024));
    assert!(c.on_block(&mut r, 2 * 1024 * 1024));
    assert_eq!(c.received, c.last_save);
}

#[test]
fn block_refused_on_overflow() {
    let r = vec![DownloadRange { start: 0, end: u64::MAX - 1, downloaded: u64::MAX - 5, completed: false }];
    let c = ChunkCursor::begin(&r, 0).unwrap();
    assert!(c.accepts(&r, 5));
    assert!(!c.accepts(&r, 6));
}

#[test]
fn single_stream_position() {
    let mut p = StreamPosition::new(0, 100);
    assert!(!p.already_complete());
    p.advance(60);
    assert_eq!(p.downloaded, 60);
    p.advance(60);
    assert_eq!(p.downloaded, 100);
    assert!(p.already_complete());
    assert!(StreamPosition::new(100, 100).already_complete());
    assert!(StreamPosition::new(150, 100).already_complete());
}

#[test]
fn blocks_stay_inside_their_range() {
    let mut r = plan_ranges(90, 3);
    let mut writes: Vec<(u64, u64)> = Vec::new();
    for t in 0..3 {
        let mut c = ChunkCursor::begin(&r, t).unwrap();
        for len in [7u64, 13, 10] {
            let at = c.write_offset().unwrap();
            writes.push((at, at + len - 1));
            assert!(at >= r[t].start && at + len - 1 <= r[t].end);
            c.on_block(&mut r, len);
        }
        c.finish(&mut r);
    }
    writes.sort();
    for w in writes.windows(2) {
        assert_eq!(w[0].1 + 1, w[1].0);
    }
    assert_eq!(writes.first().unwrap().0, 0);
    assert_eq!(writes.last().unwrap().1, 89);
}
