//! The flag set of one ACL entry: inheritance bits and the default-ACL
//! marker.

use vstd::prelude::*;

verus! {

/// A set of per-entry flags.
///
/// `is_default` marks an entry as belonging to a directory's default
/// (inherited-by-children) ACL rather than its access ACL. It is structural
/// metadata: the builder never writes it into a native entry, and the reader
/// stamps it onto every entry read from a default ACL.
#[derive(Clone, Copy, PartialEq, Eq, Structural, Debug)]
pub struct Flag {
    /// The entry belongs to a directory's default ACL.
    pub is_default: bool,
    /// New files inherit this entry (richer-model platforms).
    pub file_inherit: bool,
    /// New directories inherit this entry (richer-model platforms).
    pub dir_inherit: bool,
    /// The entry is inherited once and then no further.
    pub no_inherit: bool,
    /// The entry was itself inherited from a parent directory.
    pub inherited: bool,
}

impl Flag {
    /// The empty flag set.
    pub fn empty() -> (r: Flag)
        ensures
            r == Flag::spec_empty(),
    {
        Flag {
            is_default: false,
            file_inherit: false,
            dir_inherit: false,
            no_inherit: false,
            inherited: false,
        }
    }

    /// The flag set holding only the default-ACL marker.
    pub fn default_marker() -> (r: Flag)
        ensures
            r == (Flag { is_default: true, ..Flag::spec_empty() }),
    {
        Flag { is_default: true, ..Flag::empty() }
    }

    /// The bitwise union of two flag sets.
    pub fn union(self, other: Flag) -> (r: Flag)
        ensures
            r == (Flag {
                is_default: self.is_default || other.is_default,
                file_inherit: self.file_inherit || other.file_inherit,
                dir_inherit: self.dir_inherit || other.dir_inherit,
                no_inherit: self.no_inherit || other.no_inherit,
                inherited: self.inherited || other.inherited,
            }),
    {
        Flag {
            is_default: self.is_default || other.is_default,
            file_inherit: self.file_inherit || other.file_inherit,
            dir_inherit: self.dir_inherit || other.dir_inherit,
            no_inherit: self.no_inherit || other.no_inherit,
            inherited: self.inherited || other.inherited,
        }
    }

    /// True when no flag is set.
    pub fn is_empty(self) -> (r: bool)
        ensures
            r == (self == Flag::spec_empty()),
    {
        !self.is_default && !self.file_inherit && !self.dir_inherit && !self.no_inherit
            && !self.inherited
    }

    /// The same flags with the default-ACL marker set.
    pub fn with_default(self) -> (r: Flag)
        ensures
            r == (Flag { is_default: true, ..self }),
    {
        Flag { is_default: true, ..self }
    }

    /// The same flags with the default-ACL marker cleared.
    pub fn without_default(self) -> (r: Flag)
        ensures
            r == (Flag { is_default: false, ..self }),
    {
        Flag { is_default: false, ..self }
    }

    /// The bitwise union, as a spec-level function.
    pub open spec fn spec_union(self, other: Flag) -> Flag {
        Flag {
            is_default: self.is_default || other.is_default,
            file_inherit: self.file_inherit || other.file_inherit,
            dir_inherit: self.dir_inherit || other.dir_inherit,
            no_inherit: self.no_inherit || other.no_inherit,
            inherited: self.inherited || other.inherited,
        }
    }

    /// The empty flag set, for use in contracts.
    pub open spec fn spec_empty() -> Flag {
        Flag {
            is_default: false,
            file_inherit: false,
            dir_inherit: false,
            no_inherit: false,
            inherited: false,
        }
    }
}

} // verus!
