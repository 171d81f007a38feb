//! The parts of a receiver's type.
use vstd::prelude::*;

use super::infer::{base_of, dotted_prefix_len, leaf};
use crate::text::{chars_of, find_char, find_last, index_of, slice_of, string_of};

verus! {

/// A receiver's type as written, and its parts.
#[derive(Debug, Clone)]
pub struct ReceiverType {
    /// The type as written, with its arguments.
    pub raw: String,
    /// The dotted name, without arguments and nullability.
    pub qualified: String,
    /// The first segment of the dotted name.
    pub outer: String,
    /// The last segment of the dotted name.
    pub leaf: String,
    /// The type itself is nullable; a nullable argument does not count.
    pub nullable: bool,
}

/// The part before the first dot.
pub open spec fn outermost(s: Seq<char>) -> Seq<char> {
    s.take(index_of(s, '.'))
}

impl ReceiverType {
    /// The parts are those of the type as written.
    pub open spec fn wf(&self) -> bool {
        &&& self.qualified@ == base_of(self.raw@)
        &&& self.outer@ == outermost(self.qualified@)
        &&& self.leaf@ == leaf(self.qualified@)
        &&& self.nullable == (self.raw@.len() > 0 && self.raw@.last() == '?')
    }

    /// The parts of the type as written.
    pub fn from_raw(raw: String) -> (r: Self)
        ensures
            r.wf(),
            r.raw == raw,
    {
        let v = chars_of(raw.as_str());
        let n: usize = dotted_prefix_len(v.as_slice());
        let q = slice_of(v.as_slice(), 0, n);
        assert(q@ =~= base_of(raw@));
        let first: usize = find_char(q.as_slice(), '.');
        let outer = slice_of(q.as_slice(), 0, first);
        assert(outer@ =~= outermost(q@));
        let last: usize = find_last(q.as_slice(), '.');
        let inner = slice_of(q.as_slice(), last, q.len());
        assert(inner@ =~= leaf(q@));
        let nullable = v.len() > 0 && v[v.len() - 1] == '?';
        ReceiverType {
            raw,
            qualified: string_of(q.as_slice()),
            outer: string_of(outer.as_slice()),
            leaf: string_of(inner.as_slice()),
            nullable,
        }
    }
}

} // verus!
