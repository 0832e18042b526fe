//! Size-limited file reading decisions, and the textual encoding of
//! binary content.
//!
//! The reads themselves happen in the surrounding binary; how much to
//! read, and what text stands for the bytes, is decided here.

use vstd::prelude::*;

verus! {

/// Default cap when reading a file as text.
pub const TEXT_READ_DEFAULT_LIMIT: usize = 2 * 1024 * 1024;

/// Default cap when reading a file as binary for encoding.
pub const BINARY_READ_DEFAULT_LIMIT: usize = 50 * 1024 * 1024;

/// How to read a file as text.
pub enum TextReadPlan {
    /// The file fits under the limit: read it whole, as UTF-8.
    Whole,
    /// Read exactly this many bytes from the start, decoded leniently.
    Prefix(usize),
}

/// Decides how to read a `size`-byte file as text under the caller's
/// optional byte cap (the default applies when none is given).
pub fn plan_text_read(size: u64, max_bytes: Option<usize>) -> (r: TextReadPlan)
    ensures
        ({
            let limit = match max_bytes {
                Some(m) => m as int,
                None => TEXT_READ_DEFAULT_LIMIT as int,
            };
            if size as int <= limit {
                r == TextReadPlan::Whole
            } else {
                r == TextReadPlan::Prefix(limit as usize)
            }
        }),
{
    let limit = match max_bytes {
        Some(m) => m,
        None => TEXT_READ_DEFAULT_LIMIT,
    };
    if size <= limit as u64 {
        TextReadPlan::Whole
    } else {
        TextReadPlan::Prefix(limit)
    }
}

/// How many bytes of a `size`-byte file to read for binary encoding: the
/// whole file, capped at the caller's limit or the default.
pub fn binary_read_len(size: u64, max_bytes: Option<usize>) -> (r: usize)
    ensures
        ({
            let limit = match max_bytes {
                Some(m) => m as int,
                None => BINARY_READ_DEFAULT_LIMIT as int,
            };
            r as int == if size as int <= limit {
                size as int
            } else {
                limit
            }
        }),
{
    let limit = match max_bytes {
        Some(m) => m,
        None => BINARY_READ_DEFAULT_LIMIT,
    };
    if size <= limit as u64 {
        size as usize
    } else {
        limit
    }
}

/// What the standard padded base64 encoding of the bytes reads as.
pub uninterp spec fn b64_of(bytes: Seq<u8>) -> Seq<char>;

/// Relies on base64's `Engine::encode` with the `STANDARD` engine
/// (padded): the text is a pure function of the bytes, four characters
/// for every three-byte chunk, rounded up.  The engine panics when that
/// length overflows `usize`, so the input is bounded well away from it.
#[verifier::external_body]
fn encode_base64(bytes: &Vec<u8>) -> (r: String)
    requires
        bytes@.len() < usize::MAX / 4,
    ensures
        r@ == b64_of(bytes@),
        r@.len() == ((bytes@.len() + 2) / 3) * 4,
{
    base64::Engine::encode(&base64::engine::general_purpose::STANDARD, bytes)
}

/// The textual form of binary file content: its standard padded base64
/// encoding.
pub fn encode_file_base64(bytes: &Vec<u8>) -> (r: String)
    requires
        bytes@.len() < usize::MAX / 4,
    ensures
        r@ == b64_of(bytes@),
        r@.len() == ((bytes@.len() + 2) / 3) * 4,
        bytes@.len() == 0 ==> r@.len() == 0,
{
    encode_base64(bytes)
}

} // verus!
