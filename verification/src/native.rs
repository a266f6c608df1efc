//! The native ACL representations and the per-entry translation layer:
//! converting one portable entry to or from one native entry record, with
//! qualifier resolution.
//!
//! Two native models exist. POSIX.1e-class platforms store an entry as a
//! tag (owning user, named user, owning group, named group, mask, other)
//! plus a permission set; the richer model stores a 128-bit principal
//! identifier, an allow/deny bit, permissions and inheritance flags.
//! A numeric id that has no directory-service mapping is embedded into a
//! fixed-prefix 128-bit pattern (distinct prefixes for users and groups),
//! so round-tripping an unmapped id still produces a stable qualifier.

use vstd::prelude::*;

use crate::entry::AclKind;
use crate::entry::EntryView;
use crate::flag::Flag;
use crate::numtext::dec_chars;
use crate::numtext::guid_chars;
use crate::numtext::parse_guid_str;
use crate::numtext::parse_u32_str;
use crate::numtext::spec_parse_guid_c;
use crate::numtext::spec_parse_u32_c;
use crate::perm::Perm;

verus! {

/// The platform variant whose ACL semantics apply, selected once by the
/// caller and passed through the builder and codecs.
#[derive(Clone, Copy, PartialEq, Eq, Structural, Debug)]
pub enum Platform {
    /// The richer allow/deny model with 128-bit principal identifiers;
    /// native entries keep insertion order.
    MacOs,
    /// The POSIX.1e class model; native storage keeps entries in canonical
    /// kind-then-qualifier order.
    Linux,
    /// The POSIX.1e class model; native storage keeps insertion order.
    FreeBsd,
}

impl Platform {
    /// True for the platforms with the POSIX.1e class model.
    pub fn is_posix(self) -> (r: bool)
        ensures
            r == self.spec_is_posix(),
    {
        match self {
            Platform::MacOs => false,
            Platform::Linux => true,
            Platform::FreeBsd => true,
        }
    }

    /// True for the platforms with the POSIX.1e class model.
    pub open spec fn spec_is_posix(self) -> bool {
        self != Platform::MacOs
    }
}

/// The tag of one POSIX.1e native entry.
#[derive(Clone, Copy, PartialEq, Eq, Structural, Debug)]
pub enum PosixTag {
    /// The owning user of the object.
    UserObj,
    /// The named user with the given numeric id.
    User(u32),
    /// The owning group of the object.
    GroupObj,
    /// The named group with the given numeric id.
    Group(u32),
    /// The mask capping the group-class permissions.
    Mask,
    /// Everyone outside the user and group classes.
    Other,
}

/// One POSIX.1e native entry: a tag and a permission set.
#[derive(Clone, Copy, PartialEq, Eq, Structural, Debug)]
pub struct PosixEntry {
    /// The tag naming the class or principal.
    pub tag: PosixTag,
    /// The permissions granted.
    pub perm: Perm,
}

/// One richer-model native entry.
#[derive(Clone, Copy, PartialEq, Eq, Structural, Debug)]
pub struct MacEntry {
    /// The 128-bit principal identifier.
    pub guid: u128,
    /// True for an allow entry, false for a deny entry.
    pub allow: bool,
    /// The permissions granted or denied.
    pub perm: Perm,
    /// The inheritance flags; the default-ACL marker is never stored.
    pub flags: Flag,
}

/// The first identifier of the fixed-prefix range that embeds an unmapped
/// numeric user id.
pub const USER_GUID_BASE: u128 = 0xFFFFEEEEDDDDCCCCBBBBAAAA00000000;

/// The first identifier of the fixed-prefix range that embeds an unmapped
/// numeric group id.
pub const GROUP_GUID_BASE: u128 = 0xAAAABBBBCCCCDDDDEEEEFFFF00000000;

/// The well-known identifier of the everyone principal.
pub const EVERYONE_GUID: u128 = 0xABCDEFABCDEFABCDEFABCDEF0000000C;

/// Why one entry could not be translated to a native entry.
#[derive(Clone, Copy, PartialEq, Eq, Structural, Debug)]
pub enum XlateErr {
    /// The entry kind does not exist on this platform.
    UnsupportedKind,
    /// The platform has no deny entries.
    DenyNotSupported,
    /// The entry kind never carries a qualifier, but one was given.
    UnexpectedQualifier,
    /// The user qualifier names no known principal.
    UnknownUser,
    /// The group qualifier names no known principal.
    UnknownGroup,
}

/// Translates one portable entry to a POSIX.1e native entry.
///
/// The kind is checked first, then the allow bit, then the qualifier. A
/// numeric qualifier resolves to that id; identity resolution for other
/// names is the platform's collaborator and yields no principal here.
/// Inheritance flags and the default-ACL marker are structural metadata
/// the POSIX.1e native entry does not store; they are dropped.
pub open spec fn posix_xlate(e: EntryView) -> Result<PosixEntry, XlateErr> {
    match e.kind {
        AclKind::Everyone => Err(XlateErr::UnsupportedKind),
        AclKind::User => if !e.allow {
            Err(XlateErr::DenyNotSupported)
        } else if e.name.len() == 0 {
            Ok(PosixEntry { tag: PosixTag::UserObj, perm: e.perms })
        } else {
            match spec_parse_u32_c(e.name) {
                Some(id) => Ok(PosixEntry { tag: PosixTag::User(id), perm: e.perms }),
                None => Err(XlateErr::UnknownUser),
            }
        },
        AclKind::Group => if !e.allow {
            Err(XlateErr::DenyNotSupported)
        } else if e.name.len() == 0 {
            Ok(PosixEntry { tag: PosixTag::GroupObj, perm: e.perms })
        } else {
            match spec_parse_u32_c(e.name) {
                Some(id) => Ok(PosixEntry { tag: PosixTag::Group(id), perm: e.perms }),
                None => Err(XlateErr::UnknownGroup),
            }
        },
        AclKind::Mask => if !e.allow {
            Err(XlateErr::DenyNotSupported)
        } else if e.name.len() != 0 {
            Err(XlateErr::UnexpectedQualifier)
        } else {
            Ok(PosixEntry { tag: PosixTag::Mask, perm: e.perms })
        },
        AclKind::Other => if !e.allow {
            Err(XlateErr::DenyNotSupported)
        } else if e.name.len() != 0 {
            Err(XlateErr::UnexpectedQualifier)
        } else {
            Ok(PosixEntry { tag: PosixTag::Other, perm: e.perms })
        },
    }
}

/// What a user or group qualifier resolves to on the richer model: a
/// numeric id embeds into the fixed-prefix range, an identifier text
/// denotes that identifier, anything else names no principal here.
pub open spec fn mac_qualifier(name: Seq<char>, base: u128) -> Option<u128> {
    if name.len() == 0 {
        None
    } else {
        match spec_parse_u32_c(name) {
            Some(id) => Some((base + id) as u128),
            None => spec_parse_guid_c(name),
        }
    }
}

/// Translates one portable entry to a richer-model native entry.
///
/// Mask and other entries do not exist in this model. The default-ACL
/// marker is structural metadata and is stripped; the remaining flags map
/// one to one.
pub open spec fn mac_xlate(e: EntryView) -> Result<MacEntry, XlateErr> {
    match e.kind {
        AclKind::Mask => Err(XlateErr::UnsupportedKind),
        AclKind::Other => Err(XlateErr::UnsupportedKind),
        AclKind::User => match mac_qualifier(e.name, USER_GUID_BASE) {
            Some(g) => Ok(
                MacEntry {
                    guid: g,
                    allow: e.allow,
                    perm: e.perms,
                    flags: Flag { is_default: false, ..e.flags },
                },
            ),
            None => Err(XlateErr::UnknownUser),
        },
        AclKind::Group => match mac_qualifier(e.name, GROUP_GUID_BASE) {
            Some(g) => Ok(
                MacEntry {
                    guid: g,
                    allow: e.allow,
                    perm: e.perms,
                    flags: Flag { is_default: false, ..e.flags },
                },
            ),
            None => Err(XlateErr::UnknownGroup),
        },
        AclKind::Everyone => if e.name.len() != 0 {
            Err(XlateErr::UnexpectedQualifier)
        } else {
            Ok(
                MacEntry {
                    guid: EVERYONE_GUID,
                    allow: e.allow,
                    perm: e.perms,
                    flags: Flag { is_default: false, ..e.flags },
                },
            )
        },
    }
}

/// The portable entry read back from one POSIX.1e native entry. When the
/// native ACL is a default ACL, the default-ACL marker is stamped on.
pub open spec fn posix_entry_view(pe: PosixEntry, dflt: bool) -> EntryView {
    let flags = Flag { is_default: dflt, ..Flag::spec_empty() };
    match pe.tag {
        PosixTag::UserObj => EntryView {
            kind: AclKind::User,
            name: Seq::empty(),
            perms: pe.perm,
            flags,
            allow: true,
        },
        PosixTag::User(id) => EntryView {
            kind: AclKind::User,
            name: dec_chars(id as nat),
            perms: pe.perm,
            flags,
            allow: true,
        },
        PosixTag::GroupObj => EntryView {
            kind: AclKind::Group,
            name: Seq::empty(),
            perms: pe.perm,
            flags,
            allow: true,
        },
        PosixTag::Group(id) => EntryView {
            kind: AclKind::Group,
            name: dec_chars(id as nat),
            perms: pe.perm,
            flags,
            allow: true,
        },
        PosixTag::Mask => EntryView {
            kind: AclKind::Mask,
            name: Seq::empty(),
            perms: pe.perm,
            flags,
            allow: true,
        },
        PosixTag::Other => EntryView {
            kind: AclKind::Other,
            name: Seq::empty(),
            perms: pe.perm,
            flags,
            allow: true,
        },
    }
}

/// The kind and qualifier a richer-model identifier reads back as: an
/// embedded user or group id becomes its decimal text, the everyone
/// identifier becomes an unqualified everyone entry, and any other
/// identifier keeps its canonical text as a stable qualifier.
pub open spec fn mac_principal(g: u128) -> (AclKind, Seq<char>) {
    if g == EVERYONE_GUID {
        (AclKind::Everyone, Seq::empty())
    } else if USER_GUID_BASE <= g <= USER_GUID_BASE + u32::MAX {
        (AclKind::User, dec_chars((g - USER_GUID_BASE) as nat))
    } else if GROUP_GUID_BASE <= g <= GROUP_GUID_BASE + u32::MAX {
        (AclKind::Group, dec_chars((g - GROUP_GUID_BASE) as nat))
    } else {
        (AclKind::User, guid_chars(g))
    }
}

/// The portable entry read back from one richer-model native entry.
pub open spec fn mac_entry_view(me: MacEntry) -> EntryView {
    EntryView {
        kind: mac_principal(me.guid).0,
        name: mac_principal(me.guid).1,
        perms: me.perm,
        flags: me.flags,
        allow: me.allow,
    }
}

/// Translates one portable entry to a POSIX.1e native entry, as
/// `posix_xlate` states.
pub fn xlate_posix(e: &crate::entry::AclEntry) -> (r: Result<PosixEntry, XlateErr>)
    ensures
        r == posix_xlate(e@),
{
    match e.kind {
        AclKind::Everyone => Err(XlateErr::UnsupportedKind),
        AclKind::User => if !e.allow {
            Err(XlateErr::DenyNotSupported)
        } else if e.name.as_str().is_empty() {
            Ok(PosixEntry { tag: PosixTag::UserObj, perm: e.perms })
        } else {
            match parse_u32_str(e.name.as_str()) {
                Some(id) => Ok(PosixEntry { tag: PosixTag::User(id), perm: e.perms }),
                None => Err(XlateErr::UnknownUser),
            }
        },
        AclKind::Group => if !e.allow {
            Err(XlateErr::DenyNotSupported)
        } else if e.name.as_str().is_empty() {
            Ok(PosixEntry { tag: PosixTag::GroupObj, perm: e.perms })
        } else {
            match parse_u32_str(e.name.as_str()) {
                Some(id) => Ok(PosixEntry { tag: PosixTag::Group(id), perm: e.perms }),
                None => Err(XlateErr::UnknownGroup),
            }
        },
        AclKind::Mask => if !e.allow {
            Err(XlateErr::DenyNotSupported)
        } else if !e.name.as_str().is_empty() {
            Err(XlateErr::UnexpectedQualifier)
        } else {
            Ok(PosixEntry { tag: PosixTag::Mask, perm: e.perms })
        },
        AclKind::Other => if !e.allow {
            Err(XlateErr::DenyNotSupported)
        } else if !e.name.as_str().is_empty() {
            Err(XlateErr::UnexpectedQualifier)
        } else {
            Ok(PosixEntry { tag: PosixTag::Other, perm: e.perms })
        },
    }
}

/// Resolves a user or group qualifier on the richer model, as
/// `mac_qualifier` states.
fn resolve_mac_qualifier(name: &str, base: u128) -> (r: Option<u128>)
    requires
        base == USER_GUID_BASE || base == GROUP_GUID_BASE,
    ensures
        r == mac_qualifier(name@, base),
{
    if name.is_empty() {
        None
    } else {
        match parse_u32_str(name) {
            Some(id) => Some(base + id as u128),
            None => parse_guid_str(name),
        }
    }
}

/// Translates one portable entry to a richer-model native entry, as
/// `mac_xlate` states.
pub fn xlate_mac(e: &crate::entry::AclEntry) -> (r: Result<MacEntry, XlateErr>)
    ensures
        r == mac_xlate(e@),
{
    match e.kind {
        AclKind::Mask => Err(XlateErr::UnsupportedKind),
        AclKind::Other => Err(XlateErr::UnsupportedKind),
        AclKind::User => match resolve_mac_qualifier(e.name.as_str(), USER_GUID_BASE) {
            Some(g) => Ok(
                MacEntry {
                    guid: g,
                    allow: e.allow,
                    perm: e.perms,
                    flags: Flag { is_default: false, ..e.flags },
                },
            ),
            None => Err(XlateErr::UnknownUser),
        },
        AclKind::Group => match resolve_mac_qualifier(e.name.as_str(), GROUP_GUID_BASE) {
            Some(g) => Ok(
                MacEntry {
                    guid: g,
                    allow: e.allow,
                    perm: e.perms,
                    flags: Flag { is_default: false, ..e.flags },
                },
            ),
            None => Err(XlateErr::UnknownGroup),
        },
        AclKind::Everyone => if !e.name.as_str().is_empty() {
            Err(XlateErr::UnexpectedQualifier)
        } else {
            Ok(
                MacEntry {
                    guid: EVERYONE_GUID,
                    allow: e.allow,
                    perm: e.perms,
                    flags: Flag { is_default: false, ..e.flags },
                },
            )
        },
    }
}

/// Reads one POSIX.1e native entry back to a portable entry, as
/// `posix_entry_view` states.
pub fn entry_of_posix(pe: &PosixEntry, dflt: bool) -> (r: crate::entry::AclEntry)
    ensures
        r@ == posix_entry_view(*pe, dflt),
{
    let flags = if dflt {
        Flag::default_marker()
    } else {
        Flag::empty()
    };
    match pe.tag {
        PosixTag::UserObj => crate::entry::AclEntry {
            kind: AclKind::User,
            name: String::new(),
            perms: pe.perm,
            flags,
            allow: true,
        },
        PosixTag::User(id) => crate::entry::AclEntry {
            kind: AclKind::User,
            name: crate::numtext::dec_string_u32(id),
            perms: pe.perm,
            flags,
            allow: true,
        },
        PosixTag::GroupObj => crate::entry::AclEntry {
            kind: AclKind::Group,
            name: String::new(),
            perms: pe.perm,
            flags,
            allow: true,
        },
        PosixTag::Group(id) => crate::entry::AclEntry {
            kind: AclKind::Group,
            name: crate::numtext::dec_string_u32(id),
            perms: pe.perm,
            flags,
            allow: true,
        },
        PosixTag::Mask => crate::entry::AclEntry {
            kind: AclKind::Mask,
            name: String::new(),
            perms: pe.perm,
            flags,
            allow: true,
        },
        PosixTag::Other => crate::entry::AclEntry {
            kind: AclKind::Other,
            name: String::new(),
            perms: pe.perm,
            flags,
            allow: true,
        },
    }
}

/// Reads one richer-model native entry back to a portable entry, as
/// `mac_entry_view` states.
pub fn entry_of_mac(me: &MacEntry) -> (r: crate::entry::AclEntry)
    ensures
        r@ == mac_entry_view(*me),
{
    let (kind, name): (AclKind, String) = if me.guid == EVERYONE_GUID {
        (AclKind::Everyone, String::new())
    } else if USER_GUID_BASE <= me.guid && me.guid <= USER_GUID_BASE + u32::MAX as u128 {
        (AclKind::User, crate::numtext::dec_string_u32((me.guid - USER_GUID_BASE) as u32))
    } else if GROUP_GUID_BASE <= me.guid && me.guid <= GROUP_GUID_BASE + u32::MAX as u128 {
        (AclKind::Group, crate::numtext::dec_string_u32((me.guid - GROUP_GUID_BASE) as u32))
    } else {
        (AclKind::User, crate::numtext::guid_string(me.guid))
    };
    crate::entry::AclEntry { kind, name, perms: me.perm, flags: me.flags, allow: me.allow }
}

} // verus!
