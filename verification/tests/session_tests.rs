use nget::ranges::plan_ranges;
use nget::session::{
    check_saved_state, check_unchanged, choose_transfer, concurrent_ranges, initial_state, plan_start, read_head,
};
use nget::{DownloadConfig, DownloadError, DownloadState, RemoteInfo, StartPlan, TransferMode};

fn config(resume: bool, force: bool) -> DownloadConfig {
    DownloadConfig {
        url: "https://httpbin.org/bytes/1048576".to_string(),
        output_path: "test_download.bin".to_string(),
        num_threads: 4,
        user_agent: "nget/1.0".to_string(),
        timeout: 0,
        resume,
        force,
    }
}

fn info(etag: Option<&str>, lm: Option<&str>, size: u64) -> RemoteInfo {
    RemoteInfo {
        supports_range: true,
        etag: etag.map(|s| s.to_string()),
        last_modified: lm.map(|s| s.to_string()),
        total_size: size,
    }
}

#[test]
fn start_plans() {
    assert_eq!(plan_start(&config(true, false), true), StartPlan::Resume);
    assert_eq!(plan_start(&config(true, false), false), StartPlan::Fresh { clear_saved_state: false });
    assert_eq!(plan_start(&config(false, false), true), StartPlan::Fresh { clear_saved_state: false });
    assert_eq!(plan_start(&config(true, true), true), StartPlan::Fresh { clear_saved_state: true });
    assert_eq!(plan_start(&config(false, true), false), StartPlan::Fresh { clear_saved_state: false });
}

#[test]
fn transfer_modes() {
    assert_eq!(choose_transfer(true, 4), TransferMode::Concurrent);
    assert_eq!(choose_transfer(true, 1), TransferMode::Single);
    assert_eq!(choose_transfer(false, 8), TransferMode::Single);
}

#[test]
fn head_answers() {
    let i = read_head(Some(b"bytes"), Some("\"abc\"".to_string()), None, Some(b"1048576")).unwrap();
    assert_eq!(i, info(Some("\"abc\""), None, 1048576));
    let j = read_head(Some(b"none"), None, Some("Wed, 21 Oct 2015".to_string()), Some(b"12")).unwrap();
    assert!(!j.supports_range);
    assert_eq!(j.total_size, 12);
    assert!(!read_head(None, None, None, Some(b"0")).unwrap().supports_range);
    assert!(!read_head(Some(b"Bytes"), None, None, Some(b"1")).unwrap().supports_range);
    assert_eq!(read_head(Some(b"bytes"), None, None, None), Err(DownloadError::UnknownContentLength));
    assert_eq!(read_head(Some(b"bytes"), None, None, Some(b"12 kB")), Err(DownloadError::UnknownContentLength));
}

fn saved(etag: Option<&str>, lm: Option<&str>, size: u64) -> DownloadState {
    let c = config(true, false);
    initial_state(
        &c,
        size,
        &plan_ranges(size, 4),
        &etag.map(|s| s.to_string()),
        &lm.map(|s| s.to_string()),
    )
}

#[test]
fn saved_state_checks() {
    let url = "https://httpbin.org/bytes/1048576".to_string();
    assert_eq!(check_saved_state(None, &url), Err(DownloadError::NoSavedState));
    let s = saved(None, None, 100);
    assert_eq!(check_saved_state(Some(s.clone()), &url), Ok(s.clone()));
    assert_eq!(check_saved_state(Some(s), &"https://other/".to_string()), Err(DownloadError::UrlMismatch));
}

#[test]
fn initial_state_records_everything() {
    let s = saved(Some("e1"), Some("lm1"), 100);
    assert_eq!(s.url, "https://httpbin.org/bytes/1048576");
    assert_eq!(s.output_path, "test_download.bin");
    assert_eq!(s.total_size, 100);
    assert_eq!(s.ranges, plan_ranges(100, 4));
    assert_eq!(s.etag.as_deref(), Some("e1"));
    assert_eq!(s.last_modified.as_deref(), Some("lm1"));
}

#[test]
fn resume_verdicts() {
    let s = saved(Some("e1"), Some("lm1"), 100);
    assert_eq!(check_unchanged(&s, &info(Some("e1"), Some("lm1"), 100)), Ok(()));
    assert_eq!(check_unchanged(&s, &info(Some("e2"), Some("lm1"), 100)), Err(DownloadError::EtagChanged));
    assert_eq!(check_unchanged(&s, &info(None, Some("lm1"), 100)), Err(DownloadError::EtagChanged));
    assert_eq!(check_unchanged(&s, &info(Some("e1"), Some("lm2"), 100)), Err(DownloadError::ModifiedOnServer));
    assert_eq!(check_unchanged(&s, &info(Some("e1"), Some("lm1"), 101)), Err(DownloadError::SizeChanged));
    assert_eq!(check_unchanged(&s, &info(Some("e2"), Some("lm2"), 1)), Err(DownloadError::EtagChanged));
    let bare = saved(None, None, 100);
    assert_eq!(check_unchanged(&bare, &info(Some("new"), Some("new"), 100)), Ok(()));
    assert_eq!(check_unchanged(&bare, &info(None, None, 99)), Err(DownloadError::SizeChanged));
}

#[test]
fn concurrent_range_sources() {
    assert_eq!(concurrent_ranges(false, None, 10, 3), Ok(plan_ranges(10, 3)));
    assert_eq!(concurrent_ranges(true, None, 10, 3), Err(DownloadError::NoStateForResume));
    let s = saved(None, None, 100);
    assert_eq!(concurrent_ranges(true, Some(s.clone()), 100, 2), Ok(s.ranges));
}

#[test]
fn error_messages() {
    assert_eq!(DownloadError::NoSavedState.message(), "No download state found");
    assert_eq!(DownloadError::UrlMismatch.message(), "URL mismatch. Cannot resume download from different URL");
    assert_eq!(DownloadError::UnknownContentLength.message(), "Could not determine content length");
    assert_eq!(DownloadError::EtagChanged.message(), "File has changed on server. Cannot resume.");
    assert_eq!(DownloadError::ModifiedOnServer.message(), "File has been modified on server. Cannot resume.");
    assert_eq!(DownloadError::SizeChanged.message(), "File size has changed. Cannot resume.");
    assert_eq!(DownloadError::NoStateForResume.message(), "No state found for resume");
}
