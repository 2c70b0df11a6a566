//! Icon cache naming: a converted icon is cached in a file named by a hash
//! of the icon's path. Running the conversion and the cache directory live
//! in the surrounding application; the naming rule lives here.

use vstd::prelude::*;
use std::hash::{Hash, Hasher};

verus! {

/// The hexadecimal digest that names a path's cache entry: a pure
/// function of the path's characters.
pub uninterp spec fn path_hash_hex(path: Seq<char>) -> Seq<char>;

/// A lower-case hexadecimal digit.
pub open spec fn is_hex_digit(c: char) -> bool {
    (0x30 <= c as int <= 0x39) || (0x61 <= c as int <= 0x66)
}

/// Derives cache file names from icon paths.
pub struct IconConverter {}

impl IconConverter {
    /// A converter; it holds nothing, since the cache directory lives in
    /// the surrounding application.
    pub fn new() -> (r: IconConverter)
        ensures
            r == (IconConverter {  }),
    {
        IconConverter {  }
    }

    /// Relies on `std::collections::hash_map::DefaultHasher`, whose
    /// documentation promises that hashers made by `new` all compute the
    /// same function, and on `{:x}` formatting of the resulting `u64`:
    /// between 1 and 16 lower-case hexadecimal digits, the same for the
    /// same path.
    #[verifier::external_body]
    fn hash_path(&self, path: &str) -> (r: String)
        ensures
            r@ == path_hash_hex(path@),
            1 <= r@.len() <= 16,
            forall|i: int| 0 <= i < r@.len() ==> is_hex_digit(#[trigger] r@[i]),
    {
        let mut hasher = std::collections::hash_map::DefaultHasher::new();
        path.hash(&mut hasher);
        format!("{:x}", hasher.finish())
    }

    /// The cache name of a path: the digest, as the conversion uses it.
    pub fn test_hash_path(&self, path: &str) -> (r: String)
        ensures
            r@ == path_hash_hex(path@),
            1 <= r@.len() <= 16,
            forall|i: int| 0 <= i < r@.len() ==> is_hex_digit(#[trigger] r@[i]),
    {
        self.hash_path(path)
    }
}

} // verus!
