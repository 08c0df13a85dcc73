use vstd::prelude::*;

verus! {

/// Command line options of the downloader.
#[derive(Clone, Debug)]
pub struct Cli {
    /// URL to download
    pub url: String,
    /// Output file path
    pub output: Option<String>,
    /// Number of concurrent connections; the number of CPU cores when absent
    pub threads: Option<usize>,
    /// User agent
    pub user_agent: String,
    /// Timeout in seconds; no timeout when absent
    pub timeout: Option<u64>,
    /// Enable resume capability
    pub resume: bool,
    /// Force a new download, ignoring any saved state
    pub force: bool,
}

/// Everything a download needs to know before it starts.
#[derive(Clone, Debug)]
pub struct DownloadConfig {
    pub url: String,
    pub output_path: String,
    pub num_threads: usize,
    pub user_agent: String,
    /// Request timeout in seconds; 0 means no timeout.
    pub timeout: u64,
    pub resume: bool,
    pub force: bool,
}

/// What is saved next to the output file so that an interrupted download can be resumed.
#[derive(Clone, Debug, PartialEq, Eq)]
pub struct DownloadState {
    pub url: String,
    pub output_path: String,
    pub total_size: u64,
    pub ranges: Vec<DownloadRange>,
    pub etag: Option<String>,
    pub last_modified: Option<String>,
}

/// The part of `s` after its last `/`; all of `s` when it holds none.
pub open spec fn after_last_slash(s: Seq<char>) -> Seq<char>
    decreases s.len(),
{
    if s.len() == 0 {
        s
    } else if s.last() == '/' {
        Seq::empty()
    } else {
        after_last_slash(s.drop_last()).push(s.last())
    }
}

/// The file name a URL is saved under when no output path is given: what
/// follows its last `/` (empty when the URL ends with `/`).
pub fn file_name_from_url(url: &str) -> (r: String)
    ensures
        r@ == after_last_slash(url@),
{
    let n: usize = url.unicode_len();
    let mut from: usize = 0;
    let mut i: usize = 0;
    while i < n
        invariant
            n == url@.len(),
            from <= i <= n,
            after_last_slash(url@.take(i as int)) == url@.subrange(from as int, i as int),
        decreases n - i,
    {
        let c = url.get_char(i);
        let ghost t = url@.take(i + 1);
        assert(t.drop_last() =~= url@.take(i as int));
        assert(t.last() == c);
        if c == '/' {
            from = i + 1;
            assert(url@.subrange(from as int, i + 1) =~= Seq::<char>::empty());
        } else {
            assert(url@.subrange(from as int, i + 1) =~= url@.subrange(from as int, i as int).push(c));
        }
        i = i + 1;
    }
    assert(url@.take(n as int) =~= url@);
    let name = url.substring_char(from, n);
    String::from_str(name)
}

/// The name taken from a URL is the whole text after its last `/`: it holds
/// no `/`, and the URL is that name preceded by a part that is empty or ends
/// in `/`.
pub proof fn lemma_file_name_is_last_segment(url: Seq<char>)
    ensures
        after_last_slash(url).len() <= url.len(),
        forall|i: int| 0 <= i < after_last_slash(url).len() ==> #[trigger] after_last_slash(url)[i] != '/',
        url == url.take(url.len() - after_last_slash(url).len()) + after_last_slash(url),
        after_last_slash(url).len() == url.len() || url[url.len() - after_last_slash(url).len() - 1] == '/',
    decreases url.len(),
{
    if url.len() > 0 {
        let t = url.drop_last();
        lemma_file_name_is_last_segment(t);
        let a = after_last_slash(url);
        let b = after_last_slash(t);
        if url.last() == '/' {
            assert(url.take(url.len() as int) =~= url);
            assert(url == url.take(url.len() - a.len()) + a);
        } else {
            assert(a == b.push(url.last()));
            assert forall|i: int| 0 <= i < a.len() implies #[trigger] a[i] != '/' by {
                if i < b.len() {
                    assert(a[i] == b[i]);
                }
            }
            assert(url.take(url.len() - a.len()) =~= t.take(t.len() - b.len()));
            assert(url =~= t.push(url.last()));
            assert(url =~= url.take(url.len() - a.len()) + a);
            if b.len() < t.len() {
                assert(url[url.len() - a.len() - 1] == t[t.len() - b.len() - 1]);
            }
        }
    }
}

/// Calls `num_cpus::get`, the number of logical CPUs this process may run on.
/// The crate documents, and its source keeps, that the number is at least 1;
/// which number it is depends on the machine and is not stated.
#[verifier::external_body]
fn available_cpus() -> (n: usize)
    ensures
        n >= 1,
{
    num_cpus::get()
}

impl DownloadConfig {
    /// The configuration for the given command line, with `cpus` connections when none are asked for.
    pub fn from_cli_with_cpus(cli: Cli, cpus: usize) -> (c: DownloadConfig)
        ensures
            c.url@ == cli.url@,
            c.output_path@ == (match cli.output {
                Some(o) => o@,
                None => after_last_slash(cli.url@),
            }),
            c.num_threads == (match cli.threads {
                Some(t) => t,
                None => cpus,
            }),
            c.user_agent@ == cli.user_agent@,
            c.timeout == (match cli.timeout {
                Some(t) => t,
                None => 0,
            }),
            c.resume == cli.resume,
            c.force == cli.force,
    {
        let output_path = match cli.output {
            Some(o) => o,
            None => file_name_from_url(cli.url.as_str()),
        };
        let num_threads: usize = match cli.threads {
            Some(t) => t,
            None => cpus,
        };
        let timeout: u64 = match cli.timeout {
            Some(t) => t,
            None => 0,
        };
        DownloadConfig {
            url: cli.url,
            output_path,
            num_threads,
            user_agent: cli.user_agent,
            timeout,
            resume: cli.resume,
            force: cli.force,
        }
    }

    /// The configuration for the given command line; when no connection count
    /// is asked for, one connection per available CPU (at least one).
    pub fn from_cli(cli: Cli) -> (c: DownloadConfig)
        ensures
            c.url@ == cli.url@,
            c.output_path@ == (match cli.output {
                Some(o) => o@,
                None => after_last_slash(cli.url@),
            }),
            cli.threads matches Some(t) ==> c.num_threads == t,
            cli.threads is None ==> c.num_threads >= 1,
            c.user_agent@ == cli.user_agent@,
            c.timeout == (match cli.timeout {
                Some(t) => t,
                None => 0,
            }),
            c.resume == cli.resume,
            c.force == cli.force,
    {
        let cpus: usize = match cli.threads {
            Some(t) => t,
            None => available_cpus(),
        };
        Self::from_cli_with_cpus(cli, cpus)
    }

    /// The timeout given to the HTTP client: none when the configured timeout is 0.
    pub fn request_timeout(&self) -> (r: Option<u64>)
        ensures
            r == (if self.timeout > 0 {
                Some(self.timeout)
            } else {
                None::<u64>
            }),
    {
        if self.timeout > 0 {
            Some(self.timeout)
        } else {
            None
        }
    }
}

/// A byte range `start..=end` of the file, fetched by one connection.
#[derive(Clone, Copy, Debug, PartialEq, Eq, Structural)]
pub struct DownloadRange {
    pub start: u64,
    pub end: u64,
    pub downloaded: u64,
    pub completed: bool,
}

impl DownloadRange {
    /// Number of bytes the range covers, `end - start + 1`.
    pub open spec fn span(self) -> int {
        self.end - self.start + 1
    }

    /// `end - start + 1` can be computed in `u64` without wrapping.
    pub open spec fn span_fits(self) -> bool {
        self.start <= self.end && self.end - self.start < u64::MAX
    }

    /// The bytes booked against the range do not exceed it.
    pub open spec fn consistent(self) -> bool {
        self.span_fits() && self.downloaded <= self.span()
    }

    pub open spec fn spec_remaining(self) -> int {
        if self.completed {
            0
        } else {
            self.span() - self.downloaded
        }
    }

    pub open spec fn spec_is_completed(self) -> bool {
        self.completed || self.downloaded >= self.span()
    }

    /// A fresh range: nothing downloaded yet, not completed.
    pub fn new(start: u64, end: u64) -> (r: Self)
        ensures
            r.start == start,
            r.end == end,
            r.downloaded == 0,
            !r.completed,
    {
        DownloadRange { start, end, downloaded: 0, completed: false }
    }

    /// Bytes still to fetch: 0 once completed, otherwise the span less what was downloaded.
    pub fn remaining(&self) -> (r: u64)
        requires
            !self.completed ==> self.consistent(),
        ensures
            r == self.spec_remaining(),
    {
        if self.completed {
            0
        } else {
            (self.end - self.start + 1) - self.downloaded
        }
    }

    /// Whether the range needs no more bytes: it was marked completed, or its span is covered.
    pub fn is_completed(&self) -> (r: bool)
        requires
            !self.completed ==> self.span_fits(),
        ensures
            r == self.spec_is_completed(),
    {
        self.completed || self.downloaded >= (self.end - self.start + 1)
    }
}

/// For a range whose booked bytes do not exceed its span, being completed and
/// having nothing left to fetch are the same thing; before completion the bytes
/// booked and the bytes remaining add up to the span.
pub proof fn lemma_completed_iff_nothing_remains(r: DownloadRange)
    requires
        r.consistent(),
    ensures
        r.spec_is_completed() <==> r.spec_remaining() == 0,
        !r.completed ==> r.downloaded + r.spec_remaining() == r.span(),
{
}

} // verus!
