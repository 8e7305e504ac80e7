//! The failures of the cache engine.

use vstd::prelude::*;
use crate::text::{push_signed_decimal, signed_decimal};

verus! {

/// The code of an engine failure: the slot table has no room for another key.
pub const CODE_TABLE_FULL: i32 = 1;

/// The code of an engine failure: the bytes are not a cache image.
pub const CODE_MALFORMED_IMAGE: i32 = 3;

/// The code of an engine failure: staged vector values were never sealed.
pub const CODE_UNSEALED_VALUES: i32 = 4;

/// The code of an engine failure: an option or an argument is out of range.
pub const CODE_INVALID_ARGUMENT: i32 = -1;

/// Why an operation of the cache failed.
#[derive(Debug, Clone, Copy, PartialEq, Eq, Structural)]
pub enum AxonCacheError {
    /// The key is not in the cache.
    NotFound,
    /// No generation is loaded, or the writer has already been finished.
    UnInitialized,
    /// The key is empty.
    EmptyKey,
    /// The engine failed; the code says how.
    ApiError(i32),
    /// The entry would start at an offset that the configured number of
    /// offset bits cannot express.
    OffsetBitsError(i32),
    /// The stored bytes are not UTF-8.
    FromUtf8Error,
    /// The value contains a NUL byte.
    NulError,
}

impl AxonCacheError {
    /// What the failure reads as.
    pub open spec fn spec_message(self) -> Seq<char> {
        match self {
            AxonCacheError::NotFound => "Key was not found"@,
            AxonCacheError::UnInitialized => "Cache is not initialized"@,
            AxonCacheError::EmptyKey => "Empty key provided"@,
            AxonCacheError::ApiError(code) => "C API error: "@ + signed_decimal(code as int),
            AxonCacheError::OffsetBitsError(bits) => "Offset bits error: "@ + signed_decimal(
                bits as int,
            ),
            AxonCacheError::FromUtf8Error => "UTF-8 conversion error"@,
            AxonCacheError::NulError => "Nul byte error"@,
        }
    }

    /// What the failure reads as.
    pub fn message(&self) -> (text: String)
        ensures
            text@ == self.spec_message(),
    {
        let mut text = String::new();
        match self {
            AxonCacheError::NotFound => text.append("Key was not found"),
            AxonCacheError::UnInitialized => text.append("Cache is not initialized"),
            AxonCacheError::EmptyKey => text.append("Empty key provided"),
            AxonCacheError::ApiError(code) => {
                text.append("C API error: ");
                push_signed_decimal(&mut text, *code as i64);
            },
            AxonCacheError::OffsetBitsError(bits) => {
                text.append("Offset bits error: ");
                push_signed_decimal(&mut text, *bits as i64);
            },
            AxonCacheError::FromUtf8Error => text.append("UTF-8 conversion error"),
            AxonCacheError::NulError => text.append("Nul byte error"),
        }
        proof {
            assert(text@ =~= self.spec_message());
        }
        text
    }
}

} // verus!
