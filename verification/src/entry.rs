//! The portable ACL entry model: entry kinds and the `AclEntry` record.

use vstd::prelude::*;

use crate::flag::Flag;
use crate::perm::Perm;

verus! {

/// The kind of principal an ACL entry applies to.
///
/// A `User` or `Group` entry with an empty qualifier names the owning user
/// or owning group of the filesystem object; with a non-empty qualifier it
/// names a specific principal. `Mask` and `Other` never carry a qualifier.
/// `Everyone` exists only on richer-model platforms.
#[derive(Clone, Copy, PartialEq, Eq, Structural, Debug)]
pub enum AclKind {
    /// The owning user (empty qualifier) or a named user.
    User,
    /// The owning group (empty qualifier) or a named group.
    Group,
    /// The POSIX.1e mask entry capping the group-class permissions.
    Mask,
    /// The POSIX.1e entry for everyone outside the other classes.
    Other,
    /// Every principal (richer-model platforms only).
    Everyone,
}

/// One portable ACL entry.
///
/// `name` is the qualifier: empty for owning-user, owning-group, mask,
/// other and everyone entries; otherwise the name or numeric identifier of
/// a user or group principal.
#[derive(Clone, PartialEq, Debug)]
pub struct AclEntry {
    /// The kind of principal the entry applies to.
    pub kind: AclKind,
    /// The qualifier naming the principal; empty for unqualified kinds.
    pub name: String,
    /// The permissions granted or denied.
    pub perms: Perm,
    /// The entry's flags.
    pub flags: Flag,
    /// True for an allow entry, false for a deny entry.
    pub allow: bool,
}

/// The mathematical value of one `AclEntry`: the same record with the
/// qualifier as a sequence of characters.
#[verifier::ext_equal]
pub struct EntryView {
    /// The kind of principal the entry applies to.
    pub kind: AclKind,
    /// The qualifier naming the principal.
    pub name: Seq<char>,
    /// The permissions granted or denied.
    pub perms: Perm,
    /// The entry's flags.
    pub flags: Flag,
    /// True for an allow entry, false for a deny entry.
    pub allow: bool,
}

impl View for AclEntry {
    type V = EntryView;

    open spec fn view(&self) -> EntryView {
        EntryView {
            kind: self.kind,
            name: self.name@,
            perms: self.perms,
            flags: self.flags,
            allow: self.allow,
        }
    }
}

impl EntryView {
    /// The canonical precedence of an entry's kind: owning user, named
    /// user, owning group, named group, mask, other, everyone.
    pub open spec fn rank(self) -> int {
        match self.kind {
            AclKind::User => if self.name.len() == 0 { 0int } else { 1int },
            AclKind::Group => if self.name.len() == 0 { 2int } else { 3int },
            AclKind::Mask => 4int,
            AclKind::Other => 5int,
            AclKind::Everyone => 6int,
        }
    }
}

impl AclEntry {
    /// A new entry with every field given.
    pub fn new(kind: AclKind, name: String, perms: Perm, flags: Flag, allow: bool) -> (r: AclEntry)
        ensures
            r@ == (EntryView { kind, name: name@, perms, flags, allow }),
    {
        AclEntry { kind, name, perms, flags, allow }
    }

    /// An allow entry for the user named `name`, or for the owning user
    /// when `name` is empty.
    pub fn allow_user(name: &str, perms: Perm, flags: Flag) -> (r: AclEntry)
        ensures
            r@ == (EntryView { kind: AclKind::User, name: name@, perms, flags, allow: true }),
    {
        AclEntry { kind: AclKind::User, name: name.to_owned(), perms, flags, allow: true }
    }

    /// An allow entry for the group named `name`, or for the owning group
    /// when `name` is empty.
    pub fn allow_group(name: &str, perms: Perm, flags: Flag) -> (r: AclEntry)
        ensures
            r@ == (EntryView { kind: AclKind::Group, name: name@, perms, flags, allow: true }),
    {
        AclEntry { kind: AclKind::Group, name: name.to_owned(), perms, flags, allow: true }
    }

    /// An allow entry for everyone outside the user and group classes.
    pub fn allow_other(perms: Perm, flags: Flag) -> (r: AclEntry)
        ensures
            r@ == (EntryView {
                kind: AclKind::Other,
                name: Seq::<char>::empty(),
                perms,
                flags,
                allow: true,
            }),
    {
        let name = String::new();
        AclEntry { kind: AclKind::Other, name, perms, flags, allow: true }
    }

    /// An allow entry for the POSIX.1e mask.
    pub fn allow_mask(perms: Perm, flags: Flag) -> (r: AclEntry)
        ensures
            r@ == (EntryView {
                kind: AclKind::Mask,
                name: Seq::<char>::empty(),
                perms,
                flags,
                allow: true,
            }),
    {
        let name = String::new();
        AclEntry { kind: AclKind::Mask, name, perms, flags, allow: true }
    }

    /// A deny entry for the user named `name`.
    pub fn deny_user(name: &str, perms: Perm, flags: Flag) -> (r: AclEntry)
        ensures
            r@ == (EntryView { kind: AclKind::User, name: name@, perms, flags, allow: false }),
    {
        AclEntry { kind: AclKind::User, name: name.to_owned(), perms, flags, allow: false }
    }

    /// A deny entry for the group named `name`.
    pub fn deny_group(name: &str, perms: Perm, flags: Flag) -> (r: AclEntry)
        ensures
            r@ == (EntryView { kind: AclKind::Group, name: name@, perms, flags, allow: false }),
    {
        AclEntry { kind: AclKind::Group, name: name.to_owned(), perms, flags, allow: false }
    }
}

} // verus!
