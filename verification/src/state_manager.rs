//! Where the state of an interrupted download is kept.
use vstd::prelude::*;

verus! {

/// What `std::path::Path::with_extension` gives for `path` and `extension`,
/// both taken as text.
pub uninterp spec fn path_with_extension(path: Seq<char>, extension: Seq<char>) -> Seq<char>;

/// `s` holds no character that is a path separator on some platform (`/` or `\`).
pub open spec fn no_separator(s: Seq<char>) -> bool {
    forall|i: int| 0 <= i < s.len() ==> #[trigger] s[i] != '/' && s[i] != '\\'
}

/// Calls `std::path::Path::with_extension`: the path with its extension set to
/// `extension`.  std documents that setting an extension that holds a path
/// separator panics, so such extensions are left out.  The result is a
/// function of the two texts alone and is named, not stated; the text of a
/// path built from valid UTF-8 is read back unchanged.
#[verifier::external_body]
fn with_extension(path: &str, extension: &str) -> (r: String)
    requires
        no_separator(extension@),
    ensures
        r@ == path_with_extension(path@, extension@),
{
    std::path::Path::new(path).with_extension(extension).to_string_lossy().into_owned()
}

/// Locates the file that records a download's progress: the output path
/// with its extension replaced by `nget`.
#[derive(Clone, Debug)]
pub struct StateManager {
    state_path: String,
}

impl StateManager {
    /// The path of the state file.
    pub closed spec fn spec_state_path(&self) -> Seq<char> {
        self.state_path@
    }

    pub fn new(output_path: &str) -> (m: StateManager)
        ensures
            m.spec_state_path() == path_with_extension(output_path@, "nget"@),
    {
        proof {
            reveal_strlit("nget");
        }
        StateManager { state_path: with_extension(output_path, "nget") }
    }

    /// The path of the state file.
    pub fn state_path(&self) -> (p: &str)
        ensures
            p@ == self.spec_state_path(),
    {
        self.state_path.as_str()
    }
}

} // verus!
