use nget::config::file_name_from_url;
use nget::{Cli, DownloadConfig, DownloadRange};

fn cli(url: &str) -> Cli {
    Cli {
        url: url.to_string(),
        output: None,
        threads: None,
        user_agent: "nget/0.1.0".to_string(),
        timeout: None,
        resume: false,
        force: false,
    }
}

#[test]
fn new_range_is_fresh() {
    let r = DownloadRange::new(10, 19);
    assert_eq!(r, DownloadRange { start: 10, end: 19, downloaded: 0, completed: false });
    assert_eq!(r.remaining(), 10);
    assert!(!r.is_completed());
}

#[test]
fn remaining_counts_down_and_is_zero_when_completed() {
    let mut r = DownloadRange::new(0, 99);
    r.downloaded = 40;
    assert_eq!(r.remaining(), 60);
    r.downloaded = 100;
    assert_eq!(r.remaining(), 0);
    assert!(r.is_completed());
    let done = DownloadRange { start: 0, end: 99, downloaded: 3, completed: true };
    assert_eq!(done.remaining(), 0);
    assert!(done.is_completed());
}

#[test]
fn single_byte_range() {
    let mut r = DownloadRange::new(7, 7);
    assert_eq!(r.remaining(), 1);
    assert!(!r.is_completed());
    r.downloaded = 1;
    assert!(r.is_completed());
}

#[test]
fn file_name_is_last_url_segment() {
    assert_eq!(file_name_from_url("https://example.com/files/archive.tar.gz"), "archive.tar.gz");
    assert_eq!(file_name_from_url("https://example.com/"), "");
    assert_eq!(file_name_from_url("plainname"), "plainname");
    assert_eq!(file_name_from_url("https://h.org/bytes/1048576"), "1048576");
    assert_eq!(file_name_from_url("https://h.org/ä/ünï.bin"), "ünï.bin");
}

#[test]
fn config_from_cli_defaults() {
    let c = DownloadConfig::from_cli_with_cpus(cli("https://example.com/a/b.iso"), 6);
    assert_eq!(c.url, "https://example.com/a/b.iso");
    assert_eq!(c.output_path, "b.iso");
    assert_eq!(c.num_threads, 6);
    assert_eq!(c.user_agent, "nget/0.1.0");
    assert_eq!(c.timeout, 0);
    assert!(!c.resume);
    assert!(!c.force);
    assert_eq!(c.request_timeout(), None);
}

#[test]
fn config_from_cli_explicit() {
    let mut a = cli("https://example.com/a/b.iso");
    a.output = Some("out.bin".to_string());
    a.threads = Some(3);
    a.timeout = Some(30);
    a.resume = true;
    a.force = true;
    let c = DownloadConfig::from_cli_with_cpus(a.clone(), 12);
    assert_eq!(c.output_path, "out.bin");
    assert_eq!(c.num_threads, 3);
    assert_eq!(c.timeout, 30);
    assert!(c.resume && c.force);
    assert_eq!(c.request_timeout(), Some(30));
    let d = DownloadConfig::from_cli(a);
    assert_eq!(d.num_threads, 3);
}

#[test]
fn config_from_cli_uses_at_least_one_cpu() {
    let c = DownloadConfig::from_cli(cli("http://x/y"));
    assert!(c.num_threads >= 1);
    assert_eq!(c.output_path, "y");
}
