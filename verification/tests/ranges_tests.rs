use nget::ranges::{connection_plan, mark_completed, pending_chunks, plan_ranges, record_progress, total_downloaded, total_remaining};
use nget::DownloadRange;

fn span(r: &DownloadRange) -> u64 {
    r.end - r.start + 1
}

#[test]
fn plan_three_ranges() {
    let r = plan_ranges(10, 3);
    assert_eq!(r, vec![DownloadRange::new(0, 2), DownloadRange::new(3, 5), DownloadRange::new(6, 9)]);
}

#[test]
fn plan_partitions_the_file() {
    for (total, n) in [(1048576u64, 4usize), (1000, 7), (5, 5), (1, 1), (u64::MAX, 3)] {
        let r = plan_ranges(total, n);
        assert_eq!(r.len(), n);
        assert_eq!(r[0].start, 0);
        assert_eq!(r[n - 1].end, total - 1);
        for i in 0..n - 1 {
            assert_eq!(r[i + 1].start, r[i].end + 1);
        }
        let sum: u128 = r.iter().map(|x| span(x) as u128).sum();
        assert_eq!(sum, total as u128);
        assert!(r.iter().all(|x| x.downloaded == 0 && !x.completed && span(x) >= 1));
    }
}

#[test]
fn plan_one_megabyte_in_four() {
    let r = plan_ranges(1048576, 4);
    assert_eq!(r[1], DownloadRange::new(262144, 524287));
    assert_eq!(r[3], DownloadRange::new(786432, 1048575));
}

#[test]
fn totals_over_ranges() {
    let mut r = plan_ranges(100, 4);
    assert_eq!(total_downloaded(&r), Some(0));
    assert_eq!(total_remaining(&r), Some(100));
    record_progress(&mut r, 1, 10);
    record_progress(&mut r, 1, 5);
    record_progress(&mut r, 3, 25);
    assert_eq!(r[1].downloaded, 15);
    assert_eq!(r[0], DownloadRange::new(0, 24));
    assert_eq!(total_downloaded(&r), Some(40));
    assert_eq!(total_remaining(&r), Some(60));
    mark_completed(&mut r, 3);
    assert!(r[3].completed);
    assert_eq!(total_remaining(&r), Some(60));
    mark_completed(&mut r, 0);
    assert_eq!(total_remaining(&r), Some(35));
}

#[test]
fn totals_refuse_unreadable_ranges() {
    let over = vec![DownloadRange { start: 0, end: 9, downloaded: 11, completed: false }];
    assert_eq!(total_remaining(&over), None);
    assert_eq!(total_downloaded(&over), Some(11));
    let backwards = vec![DownloadRange { start: 9, end: 0, downloaded: 0, completed: false }];
    assert_eq!(total_remaining(&backwards), None);
    let done_backwards = vec![DownloadRange { start: 9, end: 0, downloaded: 0, completed: true }];
    assert_eq!(total_remaining(&done_backwards), Some(0));
    let huge = vec![
        DownloadRange { start: 0, end: 0, downloaded: u64::MAX, completed: true },
        DownloadRange { start: 0, end: 0, downloaded: 1, completed: true },
    ];
    assert_eq!(total_downloaded(&huge), None);
}

#[test]
fn pending_lists_unfinished_ranges() {
    let mut r = plan_ranges(40, 4);
    r[1].completed = true;
    r[2].downloaded = 10;
    assert_eq!(pending_chunks(&r), Some(vec![(0, 10), (3, 10)]));
    r[2].start = 30;
    r[2].end = 20;
    assert_eq!(pending_chunks(&r), None);
}

#[test]
fn one_connection_per_range() {
    assert_eq!(connection_plan(&plan_ranges(100, 4)), vec![0, 1, 2, 3]);
    assert_eq!(connection_plan(&Vec::new()), Vec::<usize>::new());
    let mut saved = plan_ranges(60, 6);
    saved[2].completed = true;
    assert_eq!(connection_plan(&saved), vec![0, 1, 2, 3, 4, 5]);
}
