//! Sizes as the user reads them.
use vstd::prelude::*;

use crate::http_values::decimal;

verus! {

/// What `humansize::format_size` gives for `bytes` with the `BINARY` options
/// (powers of 1024, units `B`, `KiB`, `MiB`, ...).
pub uninterp spec fn binary_size_text(bytes: u64) -> Seq<char>;

/// The characters of an ASCII byte string.
pub open spec fn ascii_text(s: Seq<u8>) -> Seq<char> {
    s.map_values(|b: u8| b as char)
}

/// Calls `humansize::format_size(bytes, humansize::BINARY)`.  Its result is a
/// function of `bytes` alone and is named; the one fact stated is what its
/// source gives below 1024 bytes: the number in decimal, a space and `B`.
#[verifier::external_body]
fn format_size_binary(bytes: u64) -> (r: String)
    ensures
        r@ == binary_size_text(bytes),
        bytes < 1024 ==> r@ == ascii_text(decimal(bytes as nat)) + " B"@,
{
    humansize::format_size(bytes, humansize::BINARY)
}

/// `prefix`, the size `bytes` in binary units, then `suffix`.
pub fn size_line(prefix: &str, bytes: u64, suffix: &str) -> (r: String)
    ensures
        r@ == prefix@ + binary_size_text(bytes) + suffix@,
        bytes < 1024 ==> r@ == prefix@ + ascii_text(decimal(bytes as nat)) + " B"@ + suffix@,
{
    let size = format_size_binary(bytes);
    let mut line = String::from_str(prefix);
    line.append(size.as_str());
    line.append(suffix);
    line
}

} // verus!
