//! Heuristics on file names.
use vstd::prelude::*;

use crate::text::{chars_of, contains, contains_text};

verus! {

/// The path of a file of a test source set.
pub open spec fn in_test_source_set(path: Seq<char>) -> bool {
    contains_text(path, "/src/test/"@) || contains_text(path, "/src/androidTest/"@)
        || contains_text(path, "/src/commonTest/"@) || contains_text(path, "/src/iosTest/"@)
}

/// Heuristic: the file likely belongs to a test source set.
pub fn is_test_file(uri_str: &str) -> (r: bool)
    ensures
        r == in_test_source_set(uri_str@),
{
    let s = chars_of(uri_str);
    contains(s.as_slice(), "/src/test/") || contains(s.as_slice(), "/src/androidTest/") || contains(
        s.as_slice(),
        "/src/commonTest/",
    ) || contains(s.as_slice(), "/src/iosTest/")
}

} // verus!
