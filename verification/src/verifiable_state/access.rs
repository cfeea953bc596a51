//! The per-key access algebra. An `Access` collapses a sequence of reads and
//! writes on one key into a canonical record; merging two records checks
//! that the right-hand record's observed pre-state agrees with the left-hand
//! record's post-state.

use vstd::prelude::*;

use crate::primitives::{opt_same, StateValue};
use crate::sorted_log::Mergeable;
use crate::MergeError;

verus! {

/// A key that was read as `original` and later overwritten to `modified`.
#[derive(Clone, Copy, Debug, PartialEq, Eq)]
pub struct Modified<T> {
    pub original: Option<T>,
    pub modified: Option<T>,
}

/// `Access` represents a collapsed sequence of events on a particular key.
/// The causality rules are:
/// 1. A read preceded by another read must match it; one copy is kept.
/// 2. A read preceded by a write must observe the value written; the read is
///    discarded.
/// 3. Otherwise the read is retained.
/// 4. A write is retained unless it is followed by another write.
#[derive(Clone, Copy, Debug, PartialEq, Eq)]
pub enum Access<T> {
    /// The key was read and observed to hold this value.
    Read(Option<T>),
    /// The key was read and later overwritten.
    ReadThenWrite(Modified<T>),
    /// The key was written with no observed prior read.
    Write(Option<T>),
}

/// The merge table over the nine variant pairs. `None` marks a causality
/// violation: the right-hand record's observed pre-state disagrees with the
/// left-hand record's post-state.
pub open spec fn spec_merge<T>(lhs: Access<T>, rhs: Access<T>) -> Option<Access<T>> {
    match (lhs, rhs) {
        (Access::Read(l), Access::Read(r)) => if l == r {
            Some(Access::Read(l))
        } else {
            None
        },
        (Access::Read(l), Access::ReadThenWrite(r)) => if l == r.original {
            Some(Access::ReadThenWrite(r))
        } else {
            None
        },
        (Access::Read(l), Access::Write(w)) => Some(
            Access::ReadThenWrite(Modified { original: l, modified: w }),
        ),
        (Access::ReadThenWrite(l), Access::Read(r)) => if l.modified == r {
            Some(Access::ReadThenWrite(l))
        } else {
            None
        },
        (Access::ReadThenWrite(l), Access::ReadThenWrite(r)) => if l.modified == r.original {
            Some(Access::ReadThenWrite(Modified { original: l.original, modified: r.modified }))
        } else {
            None
        },
        (Access::ReadThenWrite(l), Access::Write(w)) => Some(
            Access::ReadThenWrite(Modified { original: l.original, modified: w }),
        ),
        (Access::Write(l), Access::Read(r)) => if l == r {
            Some(Access::Write(l))
        } else {
            None
        },
        (Access::Write(l), Access::ReadThenWrite(r)) => if l == r.original {
            Some(Access::Write(r.modified))
        } else {
            None
        },
        (Access::Write(_), Access::Write(w)) => Some(Access::Write(w)),
    }
}

/// The value a record currently claims the key holds: what a later read of
/// the same key must observe.
pub open spec fn current_value<T>(a: Access<T>) -> Option<T> {
    match a {
        Access::Read(v) => v,
        Access::ReadThenWrite(m) => m.modified,
        Access::Write(w) => w,
    }
}

impl<T: StateValue> Access<T> {
    /// Merge two access records on the same key, the left one temporally
    /// preceding the right one.
    pub fn merge(self, rhs: Self) -> (r: Result<Self, MergeError>)
        ensures
            (match r {
                Ok(m) => spec_merge(self, rhs) == Some(m),
                Err(e) => spec_merge(self, rhs) is None && e == MergeError::CausalityViolation,
            }),
    {
        match (self, rhs) {
            (Access::Read(l), Access::Read(r)) => {
                if opt_same(&l, &r) {
                    Ok(Access::Read(l))
                } else {
                    Err(MergeError::CausalityViolation)
                }
            },
            (Access::Read(l), Access::ReadThenWrite(r)) => {
                if opt_same(&l, &r.original) {
                    Ok(Access::ReadThenWrite(r))
                } else {
                    Err(MergeError::CausalityViolation)
                }
            },
            (Access::Read(l), Access::Write(w)) => Ok(
                Access::ReadThenWrite(Modified { original: l, modified: w }),
            ),
            (Access::ReadThenWrite(l), Access::Read(r)) => {
                if opt_same(&l.modified, &r) {
                    Ok(Access::ReadThenWrite(l))
                } else {
                    Err(MergeError::CausalityViolation)
                }
            },
            (Access::ReadThenWrite(l), Access::ReadThenWrite(r)) => {
                if opt_same(&l.modified, &r.original) {
                    Ok(Access::ReadThenWrite(Modified { original: l.original, modified: r.modified }))
                } else {
                    Err(MergeError::CausalityViolation)
                }
            },
            (Access::ReadThenWrite(l), Access::Write(w)) => Ok(
                Access::ReadThenWrite(Modified { original: l.original, modified: w }),
            ),
            (Access::Write(l), Access::Read(r)) => {
                if opt_same(&l, &r) {
                    Ok(Access::Write(l))
                } else {
                    Err(MergeError::CausalityViolation)
                }
            },
            (Access::Write(l), Access::ReadThenWrite(r)) => {
                if opt_same(&l, &r.original) {
                    Ok(Access::Write(r.modified))
                } else {
                    Err(MergeError::CausalityViolation)
                }
            },
            (Access::Write(_), Access::Write(w)) => Ok(Access::Write(w)),
        }
    }
}

impl<T: StateValue> Access<T> {
    /// The value this record currently claims the key holds.
    pub fn current(&self) -> (r: Option<T>)
        ensures
            r == current_value(*self),
    {
        match self {
            Access::Read(v) => *v,
            Access::ReadThenWrite(m) => m.modified,
            Access::Write(w) => *w,
        }
    }
}

impl<T: StateValue> Mergeable for Access<T> {
    open spec fn spec_combine(self, rhs: Self) -> Option<Self> {
        spec_merge(self, rhs)
    }

    fn combine(self, rhs: Self) -> (r: Result<Self, MergeError>) {
        self.merge(rhs)
    }
}

/// Merging access records is associative: whenever both groupings of three
/// records pass all intermediate causality checks, they collapse to the same
/// record.
pub proof fn lemma_merge_associative<T>(a: Access<T>, b: Access<T>, c: Access<T>)
    requires
        spec_merge(a, b) is Some,
        spec_merge(spec_merge(a, b)->Some_0, c) is Some,
        spec_merge(b, c) is Some,
        spec_merge(a, spec_merge(b, c)->Some_0) is Some,
    ensures
        spec_merge(spec_merge(a, b)->Some_0, c) == spec_merge(a, spec_merge(b, c)->Some_0),
{
}

} // verus!
