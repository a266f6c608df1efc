//! The permission set of one ACL entry: a bit set over read, write and
//! execute.

use vstd::prelude::*;

verus! {

/// A set of file access permissions, one flag per POSIX permission bit.
#[derive(Clone, Copy, PartialEq, Eq, Structural, Debug)]
pub struct Perm {
    /// Permission to read the object.
    pub read: bool,
    /// Permission to write the object.
    pub write: bool,
    /// Permission to execute the object (or search it, for a directory).
    pub execute: bool,
}

impl Perm {
    /// The empty permission set.
    pub fn empty() -> (r: Perm)
        ensures
            r == (Perm { read: false, write: false, execute: false }),
    {
        Perm { read: false, write: false, execute: false }
    }

    /// The permission set with exactly the given bits.
    pub fn new(read: bool, write: bool, execute: bool) -> (r: Perm)
        ensures
            r == (Perm { read, write, execute }),
    {
        Perm { read, write, execute }
    }

    /// The bitwise union of two permission sets.
    pub fn union(self, other: Perm) -> (r: Perm)
        ensures
            r == self.spec_union(other),
    {
        Perm {
            read: self.read || other.read,
            write: self.write || other.write,
            execute: self.execute || other.execute,
        }
    }

    /// The bitwise intersection of two permission sets.
    pub fn intersect(self, other: Perm) -> (r: Perm)
        ensures
            r == (Perm {
                read: self.read && other.read,
                write: self.write && other.write,
                execute: self.execute && other.execute,
            }),
    {
        Perm {
            read: self.read && other.read,
            write: self.write && other.write,
            execute: self.execute && other.execute,
        }
    }

    /// True when no permission bit is set.
    pub fn is_empty(self) -> (r: bool)
        ensures
            r == (self == (Perm { read: false, write: false, execute: false })),
    {
        !self.read && !self.write && !self.execute
    }

    /// The union, as a spec-level function, so that contracts elsewhere can
    /// speak of synthesized mask permissions.
    pub open spec fn spec_union(self, other: Perm) -> Perm {
        Perm {
            read: self.read || other.read,
            write: self.write || other.write,
            execute: self.execute || other.execute,
        }
    }
}

} // verus!
