//! Tests of the entry model, the translation edge cases and the error
//! taxonomy.

use exacl::{
    from_portable_text, to_portable_text, Acl, AclEntry, AclKind, AclOption, ErrorKind, Flag,
    FsObject, Perm, Platform,
};

fn rwx(r: bool, w: bool, x: bool) -> Perm {
    Perm::new(r, w, x)
}

fn minimal(extra: Option<AclEntry>) -> Vec<AclEntry> {
    let mut v = vec![
        AclEntry::allow_user("", rwx(true, true, false), Flag::empty()),
        AclEntry::allow_group("", rwx(true, false, false), Flag::empty()),
        AclEntry::allow_other(rwx(false, false, false), Flag::empty()),
    ];
    if let Some(e) = extra {
        v.push(e);
    }
    v
}

#[test]
fn test_perm_and_flag_sets() {
    let p = Perm::new(true, false, false).union(Perm::new(false, false, true));
    assert_eq!(p, Perm::new(true, false, true));
    assert_eq!(p.intersect(Perm::new(true, true, false)), Perm::new(true, false, false));
    assert!(Perm::empty().is_empty());
    assert!(!p.is_empty());

    let f = Flag::default_marker().union(Flag::empty());
    assert!(f.is_default);
    assert!(f.without_default() == Flag::empty());
    assert!(Flag::empty().is_empty());
}

#[test]
fn test_acl_option_sets() {
    let both = AclOption::access_acl().union(AclOption::default_acl());
    assert!(both.contains(AclOption::access_acl()));
    assert!(both.contains(AclOption::default_acl()));
    assert!(!both.contains(AclOption::symlink_acl()));
    assert!(AclOption::empty() == AclOption::empty().union(AclOption::empty()));
}

#[test]
fn test_deny_not_supported_on_class_model() {
    let entries = minimal(Some(AclEntry::deny_user("500", rwx(true, false, false), Flag::empty())));
    let err = Acl::from_entries(Platform::Linux, &entries).unwrap_err();
    assert_eq!(err.kind, ErrorKind::Validation);
    assert_eq!(err.message, "entry 3: deny entries are not supported on this platform");
}

#[test]
fn test_unknown_user_name() {
    let entries = minimal(Some(AclEntry::allow_user("nobody", rwx(true, false, false), Flag::empty())));
    let err = Acl::from_entries(Platform::Linux, &entries).unwrap_err();
    assert_eq!(err.kind, ErrorKind::Validation);
    assert_eq!(err.message, "entry 3: unknown user name \"nobody\"");
}

#[test]
fn test_unsupported_kind_on_rich_model() {
    let entries = vec![AclEntry::allow_mask(rwx(true, false, false), Flag::empty())];
    let err = Acl::from_entries(Platform::MacOs, &entries).unwrap_err();
    assert_eq!(err.kind, ErrorKind::Validation);
    assert_eq!(err.message, "entry 0: unsupported entry kind \"mask\"");
}

#[test]
fn test_deny_entry_on_rich_model() {
    let entries = vec![AclEntry::deny_user("500", rwx(true, false, false), Flag::empty())];
    let acl = Acl::from_entries(Platform::MacOs, &entries).unwrap();
    assert_eq!(
        acl.to_platform_text(),
        "!#acl 1\nuser:FFFFEEEE-DDDD-CCCC-BBBB-AAAA000001F4:::deny:read\n"
    );
    let got = acl.entries().unwrap();
    assert_eq!(got.len(), 1);
    assert!(!got[0].allow);
    assert_eq!(got[0].name, "500");
}

#[test]
fn test_rich_model_guid_qualifier_round_trip() {
    // An identifier outside both embedding ranges reads back as its own
    // canonical text, and that text is accepted as a qualifier again.
    let text = "!#acl 1\nuser:01234567-89AB-CDEF-0123-456789ABCDEF:::allow:write\n";
    let acl = Acl::from_platform_text(Platform::MacOs, text).unwrap();
    let got = acl.entries().unwrap();
    assert_eq!(got[0].name, "01234567-89AB-CDEF-0123-456789ABCDEF");
    let again = Acl::from_entries(Platform::MacOs, &got).unwrap();
    assert_eq!(again.to_platform_text(), text);
}

#[test]
fn test_rich_model_inheritance_flags() {
    let mut flags = Flag::empty();
    flags.file_inherit = true;
    flags.dir_inherit = true;
    let entries = vec![AclEntry::allow_group("500", rwx(true, false, false), flags)];
    let acl = Acl::from_entries(Platform::MacOs, &entries).unwrap();
    let text = acl.to_platform_text();
    assert_eq!(
        text,
        "!#acl 1\ngroup:AAAABBBB-CCCC-DDDD-EEEE-FFFF000001F4:::allow:read,file_inherit,directory_inherit\n"
    );
    let back = Acl::from_platform_text(Platform::MacOs, &text).unwrap();
    assert_eq!(back.to_platform_text(), text);
    let got = back.entries().unwrap();
    assert!(got[0].flags.file_inherit && got[0].flags.dir_inherit);
    assert!(!got[0].flags.is_default);
}

#[test]
fn test_everyone_entry() {
    let entries = vec![AclEntry::new(
        AclKind::Everyone,
        String::new(),
        rwx(true, false, false),
        Flag::empty(),
        true,
    )];
    let acl = Acl::from_entries(Platform::MacOs, &entries).unwrap();
    let text = acl.to_platform_text();
    assert_eq!(text, "!#acl 1\neveryone:ABCDEFAB-CDEF-ABCD-EFAB-CDEF0000000C:::allow:read\n");
    let back = Acl::from_platform_text(Platform::MacOs, &text).unwrap();
    assert_eq!(back.to_platform_text(), text);
    let got = acl.entries().unwrap();
    assert_eq!(got[0].kind, AclKind::Everyone);
    assert_eq!(got[0].name, "");
}

#[test]
fn test_supplied_mask_is_kept() {
    let entries = minimal(Some(AclEntry::allow_mask(rwx(true, true, true), Flag::empty())));
    let acl = Acl::from_entries(Platform::Linux, &entries).unwrap();
    assert_eq!(acl.to_platform_text(), "user::rw-\ngroup::r--\nmask::rwx\nother::---\n");
}

#[test]
fn test_mask_for_minimal_acl_uses_owning_group() {
    let acl = Acl::from_entries(Platform::Linux, &minimal(None)).unwrap();
    assert_eq!(acl.to_platform_text(), "user::rw-\ngroup::r--\nmask::r--\nother::---\n");
}

#[test]
fn test_numeric_qualifier_normalizes() {
    // A zero-padded numeric qualifier denotes the same principal and
    // reads back in canonical decimal.
    let entries = minimal(Some(AclEntry::allow_user("0500", rwx(false, false, true), Flag::empty())));
    let acl = Acl::from_entries(Platform::Linux, &entries).unwrap();
    let got = acl.entries().unwrap();
    assert!(got.iter().any(|e| e.name == "500"));
}

#[test]
fn test_symlink_option_not_supported_on_class_model() {
    let obj = FsObject::new(Platform::Linux, false);
    let err = Acl::read(&obj, AclOption::symlink_acl()).unwrap_err();
    assert_eq!(err.kind, ErrorKind::NotSupported);
    assert_eq!(err.message, "symlink ACLs are not supported on this platform");
}

#[test]
fn test_default_acl_not_supported_on_rich_model() {
    let obj = FsObject::new(Platform::MacOs, true);
    let err = Acl::read(&obj, AclOption::default_acl()).unwrap_err();
    assert_eq!(err.kind, ErrorKind::NotSupported);
    assert_eq!(err.message, "macOS does not support default ACL");
}

#[test]
fn test_write_invalid_acl_is_checked() {
    // An ACL assembled from text without the required entries is caught
    // by the write-time structural check.
    let acl = Acl::from_platform_text(Platform::Linux, "user:500:r--\n").unwrap();
    let mut obj = FsObject::new(Platform::Linux, false);
    let err = acl.write(&mut obj, AclOption::empty()).unwrap_err();
    assert_eq!(err.kind, ErrorKind::Validation);
    assert_eq!(err.message, "missing required entry \"user\"");

    // A named entry without a mask is caught too.
    let acl = Acl::from_platform_text(Platform::Linux, "user::rw-\nuser:500:r--\ngroup::r--\nother::---\n")
        .unwrap();
    let err = acl.write(&mut obj, AclOption::empty()).unwrap_err();
    assert_eq!(err.message, "missing required entry \"mask\"");

    // A repeated tag is caught first.
    let acl = Acl::from_platform_text(Platform::Linux, "user::rw-\nuser::r--\n").unwrap();
    let err = acl.write(&mut obj, AclOption::empty()).unwrap_err();
    assert_eq!(err.message, "duplicate entry for \"user\"");
}

#[test]
fn test_write_default_acl_to_file() {
    let entries = minimal(None);
    let acl = Acl::from_entries(Platform::Linux, &entries).unwrap();
    let mut obj = FsObject::new(Platform::Linux, false);
    let err = acl.write(&mut obj, AclOption::default_acl()).unwrap_err();
    assert_eq!(err.kind, ErrorKind::NotSupported);
    let opts = AclOption::default_acl().union(AclOption::ignore_expected_file_err());
    acl.write(&mut obj, opts).unwrap();
    // The suppressed write leaves the object untouched.
    assert!(Acl::read(&obj, AclOption::empty()).unwrap().is_empty());
}

#[test]
fn test_portable_text_rejects_bad_line() {
    let err = from_portable_text("u:aaa:rwz\n").unwrap_err();
    assert_eq!(err.kind, ErrorKind::Validation);
    assert_eq!(err.message, "invalid portable ACL text");
    assert!(from_portable_text("nonsense").is_err());
}

#[test]
fn test_portable_text_tokens_and_comments() {
    let entries = from_portable_text("user:aaa:xrw\n# full comment line\n\ngroup:bbb:\n").unwrap();
    assert_eq!(entries.len(), 2);
    assert_eq!(entries[0].perms, Perm::new(true, true, true));
    assert_eq!(entries[1].perms, Perm::empty());
    // An escaped hash is part of the qualifier.
    let entries = from_portable_text("u:a\\#b:r\n").unwrap();
    assert_eq!(entries[0].name, "a#b");
    // A deny entry serializes with the deny word.
    let deny = vec![AclEntry::deny_user("ddd", Perm::new(true, false, false), Flag::empty())];
    assert_eq!(to_portable_text(&deny), "deny::user:ddd:read\n");
}

#[test]
fn test_access_acl_option_reads_access() {
    let entries = minimal(None);
    let acl = Acl::from_entries(Platform::Linux, &entries).unwrap();
    let mut obj = FsObject::new(Platform::Linux, true);
    acl.write(&mut obj, AclOption::empty()).unwrap();
    let back = Acl::read(&obj, AclOption::access_acl()).unwrap();
    assert_eq!(back.to_platform_text(), acl.to_platform_text());
    assert_eq!(back.entries().unwrap(), acl.entries().unwrap());
}

#[test]
fn test_error_text_accessor() {
    let err = Acl::from_entries(Platform::Linux, &vec![AclEntry::allow_user(
        "",
        rwx(true, false, false),
        Flag::empty(),
    )])
    .unwrap_err();
    assert_eq!(err.text(), "missing required entry \"group\"");
}
