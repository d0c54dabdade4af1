use vstd::prelude::*;
use vstd::string::StrSliceExecFns;

verus! {

/// Handle for the keyed record store.
///
/// The durable medium (one file per record, written and read by the
/// surrounding application) is opaque to the scheduling core; this
/// type only fixes the store's pure conventions, such as the name of
/// the directory the record files live in.
pub struct DB;

impl DB {
    /// Name of the directory that holds the record files, relative to
    /// the application's root directory.
    pub fn get_path() -> (r: String)
        ensures
            r@ == "db"@,
    {
        "db".to_owned()
    }

    /// The record key encoded in a store file name: everything before
    /// the first dot, or the whole name if it has none. The store
    /// keeps one record per file, named `<key>.json`.
    pub fn record_key(file_name: &str) -> (r: &str)
        ensures
            r@ == file_name@.take(r@.len() as int),
            forall|k: int| 0 <= k < r@.len() ==> file_name@[k] != '.',
            r@.len() < file_name@.len() ==> file_name@[r@.len() as int] == '.',
    {
        let len = file_name.unicode_len();
        let mut n: usize = 0;
        while n < len && file_name.get_char(n) != '.'
            invariant
                n <= len,
                len == file_name@.len(),
                forall|k: int| 0 <= k < n ==> file_name@[k] != '.',
            decreases len - n,
        {
            n = n + 1;
        }
        file_name.substring_char(0, n)
    }
}

} // verus!
