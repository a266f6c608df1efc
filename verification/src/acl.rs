//! The `Acl` object: a native ACL representation plus the default-ACL
//! marker, with the builder, reader and storage operations, and the
//! `AclOption` request modifiers.

use vstd::prelude::*;
use vstd::string::StrSliceExecFns;
use vstd::string::StringSliceAdditionalSpecFns;

use crate::builder::build_err_kind;
use crate::builder::build_err_msg;
use crate::builder::build_mac_acl;
use crate::builder::build_posix_acl;
use crate::builder::entry_views;
use crate::builder::has_tag;
use crate::builder::kind_word;
use crate::builder::spec_build_mac;
use crate::builder::spec_build_posix;
use crate::builder::BuildErr;
use crate::entry::AclEntry;
use crate::entry::AclKind;
use crate::entry::EntryView;
use crate::error::AclError;
use crate::error::ErrorKind;
use crate::flag::Flag;
use crate::codec::render_mac_text;
use crate::codec::render_posix_text;
use crate::codec::spec_parse_mac;
use crate::codec::spec_parse_posix;
use crate::native::entry_of_mac;
use crate::native::entry_of_posix;
use crate::native::mac_entry_view;
use crate::native::posix_entry_view;
use crate::native::MacEntry;
use crate::native::Platform;
use crate::native::PosixEntry;
use crate::native::PosixTag;

verus! {

/// Controls how ACLs are accessed.
#[derive(Clone, Copy, PartialEq, Eq, Structural, Debug)]
pub struct AclOption {
    /// Operate on the ACL of a symbolic link itself (richer-model
    /// platforms only).
    pub symlink_acl: bool,
    /// Operate on a directory's default ACL (POSIX.1e-class platforms
    /// only).
    pub default_acl: bool,
    /// Explicitly request the access ACL; mutually exclusive with the
    /// default-ACL option.
    pub access_acl: bool,
    /// Turn the structural error of requesting a default ACL on an object
    /// that cannot have one into an empty result.
    pub ignore_expected_file_err: bool,
}

impl AclOption {
    /// No modifiers.
    pub fn empty() -> (r: AclOption)
        ensures
            r == AclOption::spec_empty(),
    {
        AclOption {
            symlink_acl: false,
            default_acl: false,
            access_acl: false,
            ignore_expected_file_err: false,
        }
    }

    /// The symlink modifier alone.
    pub fn symlink_acl() -> (r: AclOption)
        ensures
            r == (AclOption { symlink_acl: true, ..AclOption::spec_empty() }),
    {
        AclOption { symlink_acl: true, ..AclOption::empty() }
    }

    /// The default-ACL modifier alone.
    pub fn default_acl() -> (r: AclOption)
        ensures
            r == (AclOption { default_acl: true, ..AclOption::spec_empty() }),
    {
        AclOption { default_acl: true, ..AclOption::empty() }
    }

    /// The access-ACL modifier alone.
    pub fn access_acl() -> (r: AclOption)
        ensures
            r == (AclOption { access_acl: true, ..AclOption::spec_empty() }),
    {
        AclOption { access_acl: true, ..AclOption::empty() }
    }

    /// The suppression modifier alone.
    pub fn ignore_expected_file_err() -> (r: AclOption)
        ensures
            r == (AclOption { ignore_expected_file_err: true, ..AclOption::spec_empty() }),
    {
        AclOption { ignore_expected_file_err: true, ..AclOption::empty() }
    }

    /// The union of two modifier sets.
    pub fn union(self, other: AclOption) -> (r: AclOption)
        ensures
            r == (AclOption {
                symlink_acl: self.symlink_acl || other.symlink_acl,
                default_acl: self.default_acl || other.default_acl,
                access_acl: self.access_acl || other.access_acl,
                ignore_expected_file_err: self.ignore_expected_file_err
                    || other.ignore_expected_file_err,
            }),
    {
        AclOption {
            symlink_acl: self.symlink_acl || other.symlink_acl,
            default_acl: self.default_acl || other.default_acl,
            access_acl: self.access_acl || other.access_acl,
            ignore_expected_file_err: self.ignore_expected_file_err
                || other.ignore_expected_file_err,
        }
    }

    /// True when every modifier of `other` is set in `self`.
    pub fn contains(self, other: AclOption) -> (r: bool)
        ensures
            r == ((other.symlink_acl ==> self.symlink_acl) && (other.default_acl
                ==> self.default_acl) && (other.access_acl ==> self.access_acl) && (
            other.ignore_expected_file_err ==> self.ignore_expected_file_err)),
    {
        (!other.symlink_acl || self.symlink_acl) && (!other.default_acl || self.default_acl) && (
        !other.access_acl || self.access_acl) && (!other.ignore_expected_file_err
            || self.ignore_expected_file_err)
    }

    /// No modifiers, for use in contracts.
    pub open spec fn spec_empty() -> AclOption {
        AclOption {
            symlink_acl: false,
            default_acl: false,
            access_acl: false,
            ignore_expected_file_err: false,
        }
    }
}

/// One native ACL representation: the POSIX.1e class model or the richer
/// allow/deny model.
#[derive(Debug)]
pub enum NativeAcl {
    /// A POSIX.1e-class native ACL.
    Posix(Vec<PosixEntry>),
    /// A richer-model native ACL.
    Mac(Vec<MacEntry>),
}

/// The mathematical value of a native ACL.
pub enum NativeView {
    /// A POSIX.1e-class native ACL.
    Posix(Seq<PosixEntry>),
    /// A richer-model native ACL.
    Mac(Seq<MacEntry>),
}

impl View for NativeAcl {
    type V = NativeView;

    open spec fn view(&self) -> NativeView {
        match self {
            NativeAcl::Posix(v) => NativeView::Posix(v@),
            NativeAcl::Mac(v) => NativeView::Mac(v@),
        }
    }
}

impl NativeView {
    /// The number of native entries.
    pub open spec fn len(self) -> nat {
        match self {
            NativeView::Posix(v) => v.len(),
            NativeView::Mac(v) => v.len(),
        }
    }
}

/// The ACL-relevant state of one filesystem object: its access ACL and,
/// for a POSIX.1e-class directory, its default ACL. The storage
/// collaborator that attaches this state to a path is outside this
/// library; callers hand the object state in and out as plain values.
pub struct FsObject {
    /// True for a directory, which alone can carry a default ACL.
    pub is_dir: bool,
    /// The access ACL of the object.
    pub access: NativeAcl,
    /// The default ACL of a POSIX.1e-class directory; empty when none is
    /// set, and meaningless for files and richer-model objects.
    pub default_entries: Vec<PosixEntry>,
}

/// The mathematical value of a filesystem object's ACL state.
pub struct FsView {
    /// True for a directory.
    pub is_dir: bool,
    /// The access ACL.
    pub access: NativeView,
    /// The default ACL entries.
    pub default_entries: Seq<PosixEntry>,
}

impl View for FsObject {
    type V = FsView;

    open spec fn view(&self) -> FsView {
        FsView { is_dir: self.is_dir, access: self.access@, default_entries: self.default_entries@ }
    }
}

impl FsObject {
    /// A fresh object with an empty access ACL on the given platform.
    pub fn new(platform: Platform, is_dir: bool) -> (r: FsObject)
        ensures
            r@.is_dir == is_dir,
            r@.access == (if platform.spec_is_posix() {
                NativeView::Posix(Seq::<PosixEntry>::empty())
            } else {
                NativeView::Mac(Seq::<MacEntry>::empty())
            }),
            r@.default_entries == Seq::<PosixEntry>::empty(),
    {
        let access = if platform.is_posix() {
            NativeAcl::Posix(Vec::new())
        } else {
            NativeAcl::Mac(Vec::new())
        };
        FsObject { is_dir, access, default_entries: Vec::new() }
    }
}

/// Access Control List object: one native representation, and whether it
/// is the default ACL of a directory (which controls the default-ACL
/// marker stamped onto entries read back from it).
#[derive(Debug)]
pub struct Acl {
    /// The native representation.
    pub native: NativeAcl,
    /// True when this is a directory's default ACL.
    pub default_acl: bool,
}

/// The mathematical value of an `Acl`.
pub struct AclView {
    /// The native representation.
    pub native: NativeView,
    /// True when this is a directory's default ACL.
    pub default_acl: bool,
}

impl View for Acl {
    type V = AclView;

    open spec fn view(&self) -> AclView {
        AclView { native: self.native@, default_acl: self.default_acl }
    }
}

/// The portable entry read back from one richer-model native entry of an
/// ACL whose default marker is `dflt`.
pub open spec fn mac_read_view(me: MacEntry, dflt: bool) -> EntryView {
    let base = mac_entry_view(me);
    EntryView {
        flags: Flag { is_default: me.flags.is_default || dflt, ..me.flags },
        ..base
    }
}

/// The portable entries read back from a class-model native entry list.
pub open spec fn posix_read_seq(v: Seq<PosixEntry>, dflt: bool) -> Seq<EntryView> {
    Seq::new(v.len(), |k: int| posix_entry_view(v[k], dflt))
}

/// The portable entries read back from a richer-model native entry list.
pub open spec fn mac_read_seq(v: Seq<MacEntry>, dflt: bool) -> Seq<EntryView> {
    Seq::new(v.len(), |k: int| mac_read_view(v[k], dflt))
}

/// The portable entries read back from an ACL, in native storage order.
pub open spec fn read_entry_views(av: AclView) -> Seq<EntryView> {
    match av.native {
        NativeView::Posix(v) => posix_read_seq(v, av.default_acl),
        NativeView::Mac(v) => mac_read_seq(v, av.default_acl),
    }
}

/// The first repeated tag in storage order, if any.
pub open spec fn posix_first_dup(v: Seq<PosixEntry>, n: int) -> Option<PosixTag>
    decreases n,
{
    if n <= 0 {
        None
    } else {
        match posix_first_dup(v, n - 1) {
            Some(t) => Some(t),
            None => if has_tag(v.take(n - 1), v[n - 1].tag) {
                Some(v[n - 1].tag)
            } else {
                None
            },
        }
    }
}

/// True when the class model demands a mask entry: a named user or named
/// group entry is present.
pub open spec fn needs_mask(v: Seq<PosixEntry>) -> bool {
    exists|i: int|
        0 <= i < v.len() && match (#[trigger] v[i]).tag {
            PosixTag::User(_) => true,
            PosixTag::Group(_) => true,
            _ => false,
        }
}

/// The structural fault of a POSIX.1e native ACL about to be written, if
/// any: a repeated tag, then a missing required entry, then a missing
/// mask.
pub open spec fn posix_check_msg(v: Seq<PosixEntry>) -> Option<Seq<char>> {
    match posix_first_dup(v, v.len() as int) {
        Some(t) => Some("duplicate entry for \""@ + kind_word(crate::builder::tag_kind(t)) + "\""@),
        None => if !has_tag(v, PosixTag::UserObj) {
            Some("missing required entry \"user\""@)
        } else if !has_tag(v, PosixTag::GroupObj) {
            Some("missing required entry \"group\""@)
        } else if !has_tag(v, PosixTag::Other) {
            Some("missing required entry \"other\""@)
        } else if needs_mask(v) && !has_tag(v, PosixTag::Mask) {
            Some("missing required entry \"mask\""@)
        } else {
            None
        },
    }
}

/// What reading the ACL of a filesystem object yields.
///
/// Requesting the access and the default ACL together is a validation
/// error. On the richer model there is no default ACL to request; the
/// symlink modifier selects the link object itself, whose state is the
/// object handed in. On the class model symlinks carry no ACL; the
/// default ACL of a directory is read back flagged as default, and
/// requesting it on a file is refused — or yields an empty default ACL
/// under the suppression modifier.
pub open spec fn spec_read(o: FsView, opt: AclOption) -> Result<AclView, (ErrorKind, Seq<char>)> {
    if opt.access_acl && opt.default_acl {
        Err((ErrorKind::Validation, "ACCESS_ACL and DEFAULT_ACL are mutually exclusive options"@))
    } else {
        match o.access {
            NativeView::Mac(v) => if opt.default_acl {
                Err((ErrorKind::NotSupported, "macOS does not support default ACL"@))
            } else {
                Ok(AclView { native: NativeView::Mac(v), default_acl: false })
            },
            NativeView::Posix(v) => if opt.symlink_acl {
                Err((ErrorKind::NotSupported, "symlink ACLs are not supported on this platform"@))
            } else if opt.default_acl {
                if o.is_dir {
                    Ok(AclView { native: NativeView::Posix(o.default_entries), default_acl: true })
                } else if opt.ignore_expected_file_err {
                    Ok(
                        AclView {
                            native: NativeView::Posix(Seq::<PosixEntry>::empty()),
                            default_acl: true,
                        },
                    )
                } else {
                    Err((ErrorKind::NotSupported, "only directories can have a default ACL"@))
                }
            } else {
                Ok(AclView { native: NativeView::Posix(v), default_acl: false })
            },
        }
    }
}

/// What writing an ACL to a filesystem object yields: the object's new
/// state, or the fault and the unchanged object.
///
/// The ACL is structurally checked first, except for an empty default
/// ACL, whose write clears a directory's default ACL. The option rules
/// mirror `spec_read`.
pub open spec fn spec_write(a: AclView, o: FsView, opt: AclOption) -> Result<
    FsView,
    (ErrorKind, Seq<char>),
> {
    if opt.access_acl && opt.default_acl {
        Err((ErrorKind::Validation, "ACCESS_ACL and DEFAULT_ACL are mutually exclusive options"@))
    } else {
        let skip_check = opt.default_acl && a.native.len() == 0;
        match a.native {
            NativeView::Posix(v) => if !skip_check && posix_check_msg(v) is Some {
                Err((ErrorKind::Validation, posix_check_msg(v).unwrap()))
            } else if opt.symlink_acl {
                Err((ErrorKind::NotSupported, "symlink ACLs are not supported on this platform"@))
            } else if opt.default_acl {
                if o.is_dir {
                    Ok(FsView { default_entries: v, ..o })
                } else if opt.ignore_expected_file_err {
                    Ok(o)
                } else {
                    Err((ErrorKind::NotSupported, "only directories can have a default ACL"@))
                }
            } else {
                Ok(FsView { access: NativeView::Posix(v), ..o })
            },
            NativeView::Mac(v) => if opt.default_acl {
                Err((ErrorKind::NotSupported, "macOS does not support default ACL"@))
            } else {
                Ok(FsView { access: NativeView::Mac(v), ..o })
            },
        }
    }
}

/// The native text of an ACL, in its platform's own grammar.
pub open spec fn spec_platform_text(nv: NativeView) -> Seq<u8> {
    match nv {
        NativeView::Posix(v) => crate::codec::render_posix(v),
        NativeView::Mac(v) => crate::codec::render_mac(v),
    }
}

/// Copies a POSIX.1e native entry list.
fn copy_posix_vec(v: &Vec<PosixEntry>) -> (r: Vec<PosixEntry>)
    ensures
        r@ == v@,
{
    let mut out: Vec<PosixEntry> = Vec::new();
    let mut i: usize = 0;
    while i < v.len()
        invariant
            0 <= i <= v@.len(),
            out@ == v@.take(i as int),
        decreases v@.len() - i,
    {
        out.push(v[i]);
        i = i + 1;
        assert(out@ =~= v@.take(i as int));
    }
    assert(v@.take(v@.len() as int) =~= v@);
    out
}

/// Copies a richer-model native entry list.
fn copy_mac_vec(v: &Vec<MacEntry>) -> (r: Vec<MacEntry>)
    ensures
        r@ == v@,
{
    let mut out: Vec<MacEntry> = Vec::new();
    let mut i: usize = 0;
    while i < v.len()
        invariant
            0 <= i <= v@.len(),
            out@ == v@.take(i as int),
        decreases v@.len() - i,
    {
        out.push(v[i]);
        i = i + 1;
        assert(out@ =~= v@.take(i as int));
    }
    assert(v@.take(v@.len() as int) =~= v@);
    out
}

/// The first repeated tag in storage order, as `posix_first_dup` states.
fn find_first_dup(v: &Vec<PosixEntry>) -> (r: Option<PosixTag>)
    ensures
        r == posix_first_dup(v@, v@.len() as int),
{
    let mut j: usize = 0;
    while j < v.len()
        invariant
            0 <= j <= v@.len(),
            posix_first_dup(v@, j as int) is None,
        decreases v@.len() - j,
    {
        let t = v[j].tag;
        let mut i: usize = 0;
        while i < j
            invariant
                0 <= i <= j < v@.len(),
                t == v@[j as int].tag,
                posix_first_dup(v@, j as int) is None,
                forall|k: int| 0 <= k < i ==> (#[trigger] v@[k]).tag != t,
            decreases j - i,
        {
            if v[i].tag == t {
                proof {
                    assert(v@.take(j as int)[i as int].tag == t);
                    assert(has_tag(v@.take(j as int), t));
                    assert(posix_first_dup(v@, j + 1) == Some(t));
                    lemma_first_dup_found(v@, j + 1, v@.len() as int);
                }
                return Some(t);
            }
            i = i + 1;
        }
        proof {
            assert forall|k: int| 0 <= k < j implies (#[trigger] v@.take(j as int)[k]).tag != t by {
                assert(v@.take(j as int)[k] == v@[k]);
            }
            assert(!has_tag(v@.take(j as int), t));
        }
        j = j + 1;
    }
    None
}

/// Once a repeated tag is seen at position `n - 1`, longer scans report a
/// repeated tag too.
proof fn lemma_first_dup_found(v: Seq<PosixEntry>, n: int, m: int)
    requires
        0 < n <= m,
        posix_first_dup(v, n) is Some,
    ensures
        posix_first_dup(v, m) == posix_first_dup(v, n),
    decreases m - n,
{
    if m > n {
        lemma_first_dup_found(v, n, m - 1);
    }
}

/// True when the class model demands a mask entry, as `needs_mask`
/// states.
fn check_needs_mask(v: &Vec<PosixEntry>) -> (r: bool)
    ensures
        r == needs_mask(v@),
{
    let mut i: usize = 0;
    while i < v.len()
        invariant
            0 <= i <= v@.len(),
            forall|k: int|
                0 <= k < i ==> match (#[trigger] v@[k]).tag {
                    PosixTag::User(_) => false,
                    PosixTag::Group(_) => false,
                    _ => true,
                },
        decreases v@.len() - i,
    {
        let named = match v[i].tag {
            PosixTag::User(_) => true,
            PosixTag::Group(_) => true,
            _ => false,
        };
        if named {
            return true;
        }
        i = i + 1;
    }
    false
}

/// The structural fault of a POSIX.1e native ACL, as `posix_check_msg`
/// states.
fn posix_check(v: &Vec<PosixEntry>) -> (r: Option<String>)
    ensures
        r is Some <==> posix_check_msg(v@) is Some,
        r matches Some(m) ==> Some(m@) == posix_check_msg(v@),
{
    match find_first_dup(v) {
        Some(t) => {
            let mut s = String::from_str("duplicate entry for \"");
            s.append(crate::builder::kind_word_of_tag(t));
            s.append("\"");
            Some(s)
        },
        None => {
            if !crate::builder::find_tag(v, PosixTag::UserObj) {
                Some(String::from_str("missing required entry \"user\""))
            } else if !crate::builder::find_tag(v, PosixTag::GroupObj) {
                Some(String::from_str("missing required entry \"group\""))
            } else if !crate::builder::find_tag(v, PosixTag::Other) {
                Some(String::from_str("missing required entry \"other\""))
            } else if check_needs_mask(v) && !crate::builder::find_tag(v, PosixTag::Mask) {
                Some(String::from_str("missing required entry \"mask\""))
            } else {
                None
            }
        },
    }
}

impl Acl {
    /// Wraps a native representation.
    fn new(native: NativeAcl, default_acl: bool) -> (r: Acl)
        ensures
            r@ == (AclView { native: native@, default_acl }),
    {
        Acl { native, default_acl }
    }

    /// Reads the ACL of a filesystem object, as `spec_read` states.
    pub fn read(obj: &FsObject, options: AclOption) -> (r: Result<Acl, AclError>)
        ensures
            r is Ok <==> spec_read(obj@, options) is Ok,
            r matches Ok(acl) ==> Ok::<AclView, (ErrorKind, Seq<char>)>(acl@) == spec_read(
                obj@,
                options,
            ),
            r matches Err(err) ==> {
                &&& spec_read(obj@, options) matches Err(f)
                &&& err.kind == f.0
                &&& err.message@ == f.1
            },
    {
        if options.access_acl && options.default_acl {
            return Err(
                AclError::new(
                    ErrorKind::Validation,
                    String::from_str("ACCESS_ACL and DEFAULT_ACL are mutually exclusive options"),
                ),
            );
        }
        match &obj.access {
            NativeAcl::Mac(v) => {
                if options.default_acl {
                    Err(
                        AclError::new(
                            ErrorKind::NotSupported,
                            String::from_str("macOS does not support default ACL"),
                        ),
                    )
                } else {
                    Ok(Acl::new(NativeAcl::Mac(copy_mac_vec(v)), false))
                }
            },
            NativeAcl::Posix(v) => {
                if options.symlink_acl {
                    Err(
                        AclError::new(
                            ErrorKind::NotSupported,
                            String::from_str("symlink ACLs are not supported on this platform"),
                        ),
                    )
                } else if options.default_acl {
                    if obj.is_dir {
                        Ok(Acl::new(NativeAcl::Posix(copy_posix_vec(&obj.default_entries)), true))
                    } else if options.ignore_expected_file_err {
                        Ok(Acl::new(NativeAcl::Posix(Vec::new()), true))
                    } else {
                        Err(
                            AclError::new(
                                ErrorKind::NotSupported,
                                String::from_str("only directories can have a default ACL"),
                            ),
                        )
                    }
                } else {
                    Ok(Acl::new(NativeAcl::Posix(copy_posix_vec(v)), false))
                }
            },
        }
    }

    /// Writes this ACL to a filesystem object, as `spec_write` states; on
    /// any failure the object is unchanged.
    pub fn write(&self, obj: &mut FsObject, options: AclOption) -> (r: Result<(), AclError>)
        requires
            old(obj)@.access is Posix <==> self@.native is Posix,
        ensures
            r is Ok <==> spec_write(self@, old(obj)@, options) is Ok,
            r is Ok ==> Ok::<FsView, (ErrorKind, Seq<char>)>(final(obj)@) == spec_write(
                self@,
                old(obj)@,
                options,
            ),
            r matches Err(err) ==> {
                &&& spec_write(self@, old(obj)@, options) matches Err(f)
                &&& err.kind == f.0
                &&& err.message@ == f.1
                &&& final(obj)@ == old(obj)@
            },
    {
        if options.access_acl && options.default_acl {
            return Err(
                AclError::new(
                    ErrorKind::Validation,
                    String::from_str("ACCESS_ACL and DEFAULT_ACL are mutually exclusive options"),
                ),
            );
        }
        match &self.native {
            NativeAcl::Posix(v) => {
                let skip_check = options.default_acl && v.len() == 0;
                if !skip_check {
                    match posix_check(v) {
                        Some(m) => {
                            return Err(AclError::new(ErrorKind::Validation, m));
                        },
                        None => {
                        },
                    }
                }
                if options.symlink_acl {
                    Err(
                        AclError::new(
                            ErrorKind::NotSupported,
                            String::from_str("symlink ACLs are not supported on this platform"),
                        ),
                    )
                } else if options.default_acl {
                    if obj.is_dir {
                        obj.default_entries = copy_posix_vec(v);
                        Ok(())
                    } else if options.ignore_expected_file_err {
                        Ok(())
                    } else {
                        Err(
                            AclError::new(
                                ErrorKind::NotSupported,
                                String::from_str("only directories can have a default ACL"),
                            ),
                        )
                    }
                } else {
                    obj.access = NativeAcl::Posix(copy_posix_vec(v));
                    Ok(())
                }
            },
            NativeAcl::Mac(v) => {
                if options.default_acl {
                    Err(
                        AclError::new(
                            ErrorKind::NotSupported,
                            String::from_str("macOS does not support default ACL"),
                        ),
                    )
                } else {
                    obj.access = NativeAcl::Mac(copy_mac_vec(v));
                    Ok(())
                }
            },
        }
    }

    /// Builds an ACL from a list of portable entries on the given
    /// platform: `spec_build_posix` (canonical order on the
    /// canonical-order platform, input order otherwise) or
    /// `spec_build_mac` states the result, and `build_err_msg` the
    /// message of any failure.
    pub fn from_entries(platform: Platform, entries: &Vec<AclEntry>) -> (r: Result<Acl, AclError>)
        ensures
            platform.spec_is_posix() ==> {
                let b = spec_build_posix(
                    entry_views(entries@),
                    Option::None,
                    platform == Platform::Linux,
                );
                &&& r is Ok <==> b is Ok
                &&& r matches Ok(acl) ==> b matches Ok(s) && acl@ == (AclView {
                    native: NativeView::Posix(s),
                    default_acl: false,
                })
                &&& r matches Err(err) ==> b matches Err(be) && err.kind == build_err_kind(be)
                    && err.message@ == build_err_msg(entry_views(entries@), be, false)
            },
            !platform.spec_is_posix() ==> {
                let b = spec_build_mac(entry_views(entries@));
                &&& r is Ok <==> b is Ok
                &&& r matches Ok(acl) ==> b matches Ok(s) && acl@ == (AclView {
                    native: NativeView::Mac(s),
                    default_acl: false,
                })
                &&& r matches Err(err) ==> b matches Err(be) && err.kind == build_err_kind(be)
                    && err.message@ == build_err_msg(entry_views(entries@), be, false)
            },
    {
        if platform.is_posix() {
            let sorted = match platform {
                Platform::Linux => true,
                _ => false,
            };
            match build_posix_acl(entries, None, sorted, false) {
                Ok(v) => Ok(Acl::new(NativeAcl::Posix(v), false)),
                Err(e) => Err(e),
            }
        } else {
            match build_mac_acl(entries) {
                Ok(v) => Ok(Acl::new(NativeAcl::Mac(v), false)),
                Err(e) => Err(e),
            }
        }
    }

    /// Builds the access/default ACL pair from a list of portable
    /// entries, partitioned by the default-ACL marker; each half runs the
    /// full class-model build, the access half first. Only the
    /// POSIX.1e-class platforms store a separate default ACL.
    pub fn from_unified_entries(platform: Platform, entries: &Vec<AclEntry>) -> (r: Result<
        (Acl, Acl),
        AclError,
    >)
        ensures
            !platform.spec_is_posix() ==> {
                &&& r matches Err(err)
                &&& err.kind == ErrorKind::NotSupported
                &&& err.message@ == "macOS does not support default ACL"@
            },
            platform.spec_is_posix() ==> {
                let sorted = platform == Platform::Linux;
                let ba = spec_build_posix(entry_views(entries@), Option::Some(false), sorted);
                let bd = spec_build_posix(entry_views(entries@), Option::Some(true), sorted);
                &&& r is Ok <==> ba is Ok && bd is Ok
                &&& r matches Ok(pair) ==> ba matches Ok(sa) && bd matches Ok(sd) && pair.0@ == (
                AclView { native: NativeView::Posix(sa), default_acl: false }) && pair.1@ == (
                AclView { native: NativeView::Posix(sd), default_acl: true })
                &&& (r is Err && ba is Err) ==> {
                    &&& ba matches Err(be)
                    &&& r->Err_0.kind == build_err_kind(be)
                    &&& r->Err_0.message@ == build_err_msg(entry_views(entries@), be, false)
                }
                &&& (r is Err && ba is Ok) ==> {
                    &&& bd matches Err(be)
                    &&& r->Err_0.kind == build_err_kind(be)
                    &&& r->Err_0.message@ == build_err_msg(entry_views(entries@), be, true)
                }
            },
    {
        if !platform.is_posix() {
            return Err(
                AclError::new(
                    ErrorKind::NotSupported,
                    String::from_str("macOS does not support default ACL"),
                ),
            );
        }
        let sorted = match platform {
            Platform::Linux => true,
            _ => false,
        };
        let access = match build_posix_acl(entries, Some(false), sorted, false) {
            Ok(v) => v,
            Err(e) => {
                return Err(e);
            },
        };
        let dflt = match build_posix_acl(entries, Some(true), sorted, true) {
            Ok(v) => v,
            Err(e) => {
                return Err(e);
            },
        };
        Ok((Acl::new(NativeAcl::Posix(access), false), Acl::new(NativeAcl::Posix(dflt), true)))
    }

    /// The ACL's portable entries, in native storage order, the
    /// default-ACL marker stamped on when this is a default ACL.
    pub fn entries(&self) -> (r: Result<Vec<AclEntry>, AclError>)
        ensures
            r matches Ok(es) && entry_views(es@) == read_entry_views(self@),
    {
        match &self.native {
            NativeAcl::Posix(v) => {
                let mut out: Vec<AclEntry> = Vec::new();
                let mut i: usize = 0;
                while i < v.len()
                    invariant
                        0 <= i <= v@.len(),
                        out@.len() == i,
                        forall|k: int|
                            0 <= k < i ==> (#[trigger] out@[k])@ == posix_entry_view(
                                v@[k],
                                self.default_acl,
                            ),
                    decreases v@.len() - i,
                {
                    out.push(entry_of_posix(&v[i], self.default_acl));
                    i = i + 1;
                }
                assert(entry_views(out@) =~~= posix_read_seq(v@, self.default_acl));
                Ok(out)
            },
            NativeAcl::Mac(v) => {
                let mut out: Vec<AclEntry> = Vec::new();
                let mut i: usize = 0;
                while i < v.len()
                    invariant
                        0 <= i <= v@.len(),
                        out@.len() == i,
                        forall|k: int|
                            0 <= k < i ==> (#[trigger] out@[k])@ == mac_read_view(
                                v@[k],
                                self.default_acl,
                            ),
                    decreases v@.len() - i,
                {
                    let mut e = entry_of_mac(&v[i]);
                    if self.default_acl {
                        e.flags = e.flags.with_default();
                    }
                    assert(e@ =~~= mac_read_view(v@[i as int], self.default_acl));
                    out.push(e);
                    i = i + 1;
                }
                assert(entry_views(out@) =~~= mac_read_seq(v@, self.default_acl));
                Ok(out)
            },
        }
    }

    /// The platform-dependent textual description of the ACL, in the
    /// platform's own grammar.
    pub fn to_platform_text(&self) -> (r: String)
        ensures
            r@ == spec_platform_text(self@.native).map_values(|b: u8| b as char),
    {
        match &self.native {
            NativeAcl::Posix(v) => {
                let bytes = render_posix_text(v);
                proof {
                    crate::codec::lemma_render_posix_ascii(v@, v@.len() as int);
                }
                crate::numtext::ascii_to_string(bytes)
            },
            NativeAcl::Mac(v) => {
                let bytes = render_mac_text(v);
                proof {
                    reveal_strlit("!#acl 1");
                    crate::codec::lemma_render_mac_ascii(v@, v@.len() as int);
                    let hdr = crate::codec::mac_header();
                    let rest = crate::codec::render_mac_upto(v@, v@.len() as int);
                    assert forall|i: int| 0 <= i < bytes@.len() implies #[trigger] bytes@[i]
                        < 128 by {
                        if i < 7 {
                            assert(bytes@[i] == crate::numtext::chars_bytes("!#acl 1"@)[i]);
                        } else if i == 7 {
                            assert(bytes@[i] == 10);
                        } else {
                            assert(bytes@[i] == rest[i - 8]);
                        }
                    }
                }
                crate::numtext::ascii_to_string(bytes)
            },
        }
    }

    /// Builds an ACL from the platform-dependent textual description: the
    /// text's UTF-8 bytes are parsed under the platform's own grammar,
    /// and a document the grammar rejects is a validation error.
    pub fn from_platform_text(platform: Platform, text: &str) -> (r: Result<Acl, AclError>)
        ensures
            platform.spec_is_posix() ==> {
                &&& r is Ok <==> spec_parse_posix(text.spec_bytes()) is Some
                &&& r matches Ok(acl) ==> spec_parse_posix(text.spec_bytes()) matches Some(v)
                    && acl@ == (AclView { native: NativeView::Posix(v), default_acl: false })
                &&& r matches Err(err) ==> err.kind == ErrorKind::Validation && err.message@
                    == "invalid ACL text"@
            },
            !platform.spec_is_posix() ==> {
                &&& r is Ok <==> spec_parse_mac(text.spec_bytes()) is Some
                &&& r matches Ok(acl) ==> spec_parse_mac(text.spec_bytes()) matches Some(v)
                    && acl@ == (AclView { native: NativeView::Mac(v), default_acl: false })
                &&& r matches Err(err) ==> err.kind == ErrorKind::Validation && err.message@
                    == "invalid ACL text"@
            },
    {
        let bytes = text.as_bytes_vec();
        if platform.is_posix() {
            match crate::codec::parse_posix_text(&bytes) {
                Some(v) => Ok(Acl::new(NativeAcl::Posix(v), false)),
                None => Err(
                    AclError::new(ErrorKind::Validation, String::from_str("invalid ACL text")),
                ),
            }
        } else {
            match crate::codec::parse_mac_text(&bytes) {
                Some(v) => Ok(Acl::new(NativeAcl::Mac(v), false)),
                None => Err(
                    AclError::new(ErrorKind::Validation, String::from_str("invalid ACL text")),
                ),
            }
        }
    }

    /// True when the ACL holds no entries.
    pub fn is_empty(&self) -> (r: bool)
        ensures
            r == (self@.native.len() == 0),
    {
        match &self.native {
            NativeAcl::Posix(v) => v.len() == 0,
            NativeAcl::Mac(v) => v.len() == 0,
        }
    }
}

} // verus!
