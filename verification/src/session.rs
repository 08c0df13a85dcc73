//! The decisions a download takes between its network and disk steps: how
//! it starts, which transfer it uses, what the server's `HEAD` answer says,
//! and whether a saved download may be resumed.
use vstd::prelude::*;

use crate::config::{DownloadConfig, DownloadRange, DownloadState};
use crate::http_values::{parse_u64, spec_parse_u64};
use crate::ranges::{plan_ranges, planned_range};

verus! {

/// Why a download cannot go on.
#[derive(Clone, Copy, Debug, PartialEq, Eq, Structural)]
pub enum DownloadError {
    /// Resume was asked for but no saved state could be read.
    NoSavedState,
    /// The saved state belongs to another URL.
    UrlMismatch,
    /// The server did not announce a usable `Content-Length`.
    UnknownContentLength,
    /// The server's `ETag` differs from the saved one.
    EtagChanged,
    /// The server's `Last-Modified` differs from the saved one.
    ModifiedOnServer,
    /// The server announces another size than the saved one.
    SizeChanged,
    /// The saved state vanished between the resume check and the transfer.
    NoStateForResume,
}

impl DownloadError {
    /// The message shown to the user for this error.
    pub fn message(&self) -> (m: &'static str)
        ensures
            m@ == (match *self {
                DownloadError::NoSavedState => "No download state found"@,
                DownloadError::UrlMismatch => "URL mismatch. Cannot resume download from different URL"@,
                DownloadError::UnknownContentLength => "Could not determine content length"@,
                DownloadError::EtagChanged => "File has changed on server. Cannot resume."@,
                DownloadError::ModifiedOnServer => "File has been modified on server. Cannot resume."@,
                DownloadError::SizeChanged => "File size has changed. Cannot resume."@,
                DownloadError::NoStateForResume => "No state found for resume"@,
            }),
    {
        match self {
            DownloadError::NoSavedState => "No download state found",
            DownloadError::UrlMismatch => "URL mismatch. Cannot resume download from different URL",
            DownloadError::UnknownContentLength => "Could not determine content length",
            DownloadError::EtagChanged => "File has changed on server. Cannot resume.",
            DownloadError::ModifiedOnServer => "File has been modified on server. Cannot resume.",
            DownloadError::SizeChanged => "File size has changed. Cannot resume.",
            DownloadError::NoStateForResume => "No state found for resume",
        }
    }
}

/// How a download begins.
#[derive(Clone, Copy, Debug, PartialEq, Eq, Structural)]
pub enum StartPlan {
    /// Continue the download recorded in the saved state.
    Resume,
    /// Start from scratch, first deleting the saved state when `clear_saved_state` is set.
    Fresh { clear_saved_state: bool },
}

/// How the bytes are fetched.
#[derive(Clone, Copy, Debug, PartialEq, Eq, Structural)]
pub enum TransferMode {
    /// Several connections, each fetching one byte range.
    Concurrent,
    /// One connection fetching the whole file.
    Single,
}

/// What the server's answer to a `HEAD` request says about the file.
#[derive(Clone, Debug, PartialEq, Eq)]
pub struct RemoteInfo {
    pub supports_range: bool,
    pub etag: Option<String>,
    pub last_modified: Option<String>,
    pub total_size: u64,
}

/// The view of an optional string.
pub open spec fn opt_view(o: Option<String>) -> Option<Seq<char>> {
    match o {
        Some(s) => Some(s@),
        None => None,
    }
}

/// How a download begins: resume only when asked to, when a saved state
/// exists, and when no fresh start is forced; a forced start deletes an
/// existing saved state first.
pub open spec fn spec_plan_start(resume: bool, force: bool, state_exists: bool) -> StartPlan {
    if resume && state_exists && !force {
        StartPlan::Resume
    } else {
        StartPlan::Fresh { clear_saved_state: force && state_exists }
    }
}

/// Decides how the download described by `config` begins.
pub fn plan_start(config: &DownloadConfig, state_exists: bool) -> (p: StartPlan)
    ensures
        p == spec_plan_start(config.resume, config.force, state_exists),
{
    if config.resume && state_exists && !config.force {
        StartPlan::Resume
    } else {
        StartPlan::Fresh { clear_saved_state: config.force && state_exists }
    }
}

/// Several connections only when the server serves byte ranges and more than one connection is configured.
pub fn choose_transfer(supports_range: bool, num_threads: usize) -> (m: TransferMode)
    ensures
        m == (if supports_range && num_threads > 1 {
            TransferMode::Concurrent
        } else {
            TransferMode::Single
        }),
{
    if supports_range && num_threads > 1 {
        TransferMode::Concurrent
    } else {
        TransferMode::Single
    }
}

/// The `Accept-Ranges` value `bytes`.
pub open spec fn bytes_token() -> Seq<u8> {
    seq![98u8, 121u8, 116u8, 101u8, 115u8]
}

fn is_bytes_token(v: &[u8]) -> (r: bool)
    ensures
        r == (v@ == bytes_token()),
{
    if v.len() != 5 {
        return false;
    }
    let r = v[0] == 98 && v[1] == 121 && v[2] == 116 && v[3] == 101 && v[4] == 115;
    if r {
        assert(v@ =~= bytes_token());
    }
    r
}

/// Reads the server's `HEAD` answer from its raw `Accept-Ranges` and
/// `Content-Length` values and its `ETag` and `Last-Modified` texts: ranges
/// are served when `Accept-Ranges` is exactly `bytes`, and the size is the
/// `Content-Length` read as a `u64`; without one the download cannot proceed.
pub fn read_head(
    accept_ranges: Option<&[u8]>,
    etag: Option<String>,
    last_modified: Option<String>,
    content_length: Option<&[u8]>,
) -> (r: Result<RemoteInfo, DownloadError>)
    ensures
        match content_length {
            Some(v) => spec_parse_u64(v@) is Some,
            None => false,
        } <==> r is Ok,
        r is Err ==> r == Err::<RemoteInfo, DownloadError>(DownloadError::UnknownContentLength),
        r matches Ok(info) ==> {
            &&& info.supports_range == (match accept_ranges {
                Some(v) => v@ == bytes_token(),
                None => false,
            })
            &&& opt_view(info.etag) == opt_view(etag)
            &&& opt_view(info.last_modified) == opt_view(last_modified)
            &&& Some(info.total_size) == spec_parse_u64(content_length.unwrap()@)
        },
{
    let supports_range = match accept_ranges {
        Some(v) => is_bytes_token(v),
        None => false,
    };
    let total_size: u64 = match content_length {
        Some(v) => match parse_u64(v) {
            Some(n) => n,
            None => {
                return Err(DownloadError::UnknownContentLength);
            },
        },
        None => {
            return Err(DownloadError::UnknownContentLength);
        },
    };
    Ok(RemoteInfo { supports_range, etag, last_modified, total_size })
}

/// A resume is refused when no saved state was read, or when it was saved for another URL.
pub fn check_saved_state(state: Option<DownloadState>, url: &String) -> (r: Result<DownloadState, DownloadError>)
    ensures
        state is None ==> r == Err::<DownloadState, DownloadError>(DownloadError::NoSavedState),
        state matches Some(s) ==> (if s.url@ == url@ {
            r == Ok::<DownloadState, DownloadError>(s)
        } else {
            r == Err::<DownloadState, DownloadError>(DownloadError::UrlMismatch)
        }),
{
    match state {
        None => Err(DownloadError::NoSavedState),
        Some(s) => {
            if s.url.eq(url) {
                Ok(s)
            } else {
                Err(DownloadError::UrlMismatch)
            }
        },
    }
}

/// A validator the saved state recorded that the server no longer reports identically.
pub open spec fn validator_changed(saved: Option<String>, current: Option<String>) -> bool {
    match saved {
        Some(v) => opt_view(current) != Some(v@),
        None => false,
    }
}

/// The verdict on resuming `saved` against the server's current answer:
/// refused when a recorded `ETag`, then a recorded `Last-Modified`, then the size, differs.
pub open spec fn spec_resume_verdict(saved: DownloadState, info: RemoteInfo) -> Result<(), DownloadError> {
    if validator_changed(saved.etag, info.etag) {
        Err(DownloadError::EtagChanged)
    } else if validator_changed(saved.last_modified, info.last_modified) {
        Err(DownloadError::ModifiedOnServer)
    } else if info.total_size != saved.total_size {
        Err(DownloadError::SizeChanged)
    } else {
        Ok(())
    }
}

fn changed(saved: &Option<String>, current: &Option<String>) -> (r: bool)
    ensures
        r == validator_changed(*saved, *current),
{
    match saved {
        Some(v) => match current {
            Some(c) => !c.eq(v),
            None => true,
        },
        None => false,
    }
}

/// Whether the file on the server is still the one the saved state describes.
pub fn check_unchanged(saved: &DownloadState, info: &RemoteInfo) -> (r: Result<(), DownloadError>)
    ensures
        r == spec_resume_verdict(*saved, *info),
{
    if changed(&saved.etag, &info.etag) {
        Err(DownloadError::EtagChanged)
    } else if changed(&saved.last_modified, &info.last_modified) {
        Err(DownloadError::ModifiedOnServer)
    } else if info.total_size != saved.total_size {
        Err(DownloadError::SizeChanged)
    } else {
        Ok(())
    }
}

fn copy_text(o: &Option<String>) -> (r: Option<String>)
    ensures
        opt_view(r) == opt_view(*o),
{
    match o {
        Some(s) => Some(s.clone()),
        None => None,
    }
}

fn copy_ranges(v: &Vec<DownloadRange>) -> (r: Vec<DownloadRange>)
    ensures
        r@ == v@,
{
    let mut out: Vec<DownloadRange> = Vec::new();
    let mut i: usize = 0;
    while i < v.len()
        invariant
            i <= v@.len(),
            out@ == v@.take(i as int),
        decreases v@.len() - i,
    {
        out.push(v[i]);
        i = i + 1;
        assert(out@ =~= v@.take(i as int));
    }
    assert(v@.take(i as int) =~= v@);
    out
}

/// The state saved when a concurrent download starts: the configured URL and
/// output path, the size, the ranges and the server's validators.
pub fn initial_state(
    config: &DownloadConfig,
    total_size: u64,
    ranges: &Vec<DownloadRange>,
    etag: &Option<String>,
    last_modified: &Option<String>,
) -> (s: DownloadState)
    ensures
        s.url@ == config.url@,
        s.output_path@ == config.output_path@,
        s.total_size == total_size,
        s.ranges@ == ranges@,
        opt_view(s.etag) == opt_view(*etag),
        opt_view(s.last_modified) == opt_view(*last_modified),
{
    DownloadState {
        url: config.url.clone(),
        output_path: config.output_path.clone(),
        total_size,
        ranges: copy_ranges(ranges),
        etag: copy_text(etag),
        last_modified: copy_text(last_modified),
    }
}

/// The ranges of a concurrent transfer: those of the saved state when
/// resuming (an error when it could not be read), otherwise a fresh plan
/// of `num_threads` ranges over `total_size` bytes.
pub fn concurrent_ranges(
    is_resume: bool,
    saved: Option<DownloadState>,
    total_size: u64,
    num_threads: usize,
) -> (r: Result<Vec<DownloadRange>, DownloadError>)
    requires
        !is_resume ==> num_threads >= 1 && total_size >= num_threads,
    ensures
        is_resume ==> match saved {
            Some(s) => (r matches Ok(v) && v@ == s.ranges@),
            None => r == Err::<Vec<DownloadRange>, DownloadError>(DownloadError::NoStateForResume),
        },
        !is_resume ==> (r matches Ok(v) && v@.len() == num_threads && forall|i: int|
            0 <= i < num_threads ==> #[trigger] v@[i] == planned_range(total_size, num_threads as nat, i)),
{
    if is_resume {
        match saved {
            Some(s) => Ok(s.ranges),
            None => Err(DownloadError::NoStateForResume),
        }
    } else {
        Ok(plan_ranges(total_size, num_threads))
    }
}

/// A state saved from the server's answer is accepted when the server later
/// gives the same answer, and a resume is accepted exactly when every
/// validator the state recorded, and the size, are what the server reports now.
pub proof fn lemma_resume_accepts_unchanged_file(saved: DownloadState, info: RemoteInfo)
    ensures
        (opt_view(saved.etag) == opt_view(info.etag) && opt_view(saved.last_modified) == opt_view(
            info.last_modified,
        ) && saved.total_size == info.total_size) ==> spec_resume_verdict(saved, info) is Ok,
        spec_resume_verdict(saved, info) is Ok <==> (!validator_changed(saved.etag, info.etag)
            && !validator_changed(saved.last_modified, info.last_modified) && saved.total_size
            == info.total_size),
{
}

/// The resume verdict in terms of the texts themselves: a recorded `ETag`
/// refuses the resume exactly when the server sends none or a different text;
/// then a recorded `Last-Modified` the same way; then a different size; an
/// unrecorded validator is never compared.
pub proof fn lemma_resume_verdict_compares_texts(saved: DownloadState, info: RemoteInfo)
    ensures
        (spec_resume_verdict(saved, info) == Err::<(), DownloadError>(DownloadError::EtagChanged)) <==> (
        saved.etag is Some && !(info.etag is Some && info.etag.unwrap()@ == saved.etag.unwrap()@)),
        (spec_resume_verdict(saved, info) == Err::<(), DownloadError>(DownloadError::ModifiedOnServer)) <==> (
        !(saved.etag is Some && !(info.etag is Some && info.etag.unwrap()@ == saved.etag.unwrap()@))
            && saved.last_modified is Some && !(info.last_modified is Some
            && info.last_modified.unwrap()@ == saved.last_modified.unwrap()@)),
        spec_resume_verdict(saved, info) is Ok <==> ((saved.etag is Some ==> (info.etag is Some
            && info.etag.unwrap()@ == saved.etag.unwrap()@)) && (saved.last_modified is Some ==> (
        info.last_modified is Some && info.last_modified.unwrap()@ == saved.last_modified.unwrap()@))
            && info.total_size == saved.total_size),
{
}

/// A forced start never resumes; a resume only happens when it was asked for
/// and a saved state exists; the saved state is only deleted by a forced start.
pub proof fn lemma_force_never_resumes(resume: bool, force: bool, state_exists: bool)
    ensures
        force ==> spec_plan_start(resume, force, state_exists) != StartPlan::Resume,
        spec_plan_start(resume, force, state_exists) == StartPlan::Resume ==> resume && state_exists,
        spec_plan_start(resume, force, state_exists) == (StartPlan::Fresh { clear_saved_state: true })
            ==> force && state_exists,
        (resume && state_exists && !force) ==> spec_plan_start(resume, force, state_exists) == StartPlan::Resume,
        (force && state_exists) ==> spec_plan_start(resume, force, state_exists) == (StartPlan::Fresh {
            clear_saved_state: true,
        }),
{
}

} // verus!
