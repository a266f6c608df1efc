//! The public-API tests: building, reading, writing and the text codecs
//! across the three platform variants.

use exacl::{
    from_portable_text, to_portable_text, Acl, AclEntry, AclKind, AclOption, ErrorKind, Flag,
    FsObject, Perm, Platform,
};

fn rwx(r: bool, w: bool, x: bool) -> Perm {
    Perm::new(r, w, x)
}

#[test]
fn test_from_entries() {
    // The richer model embeds an unmapped numeric user id into the fixed
    // 128-bit prefix.
    let entries = vec![AclEntry::allow_user("500", rwx(false, false, true), Flag::empty())];
    let acl = Acl::from_entries(Platform::MacOs, &entries).unwrap();
    assert_eq!(
        acl.to_platform_text(),
        "!#acl 1\nuser:FFFFEEEE-DDDD-CCCC-BBBB-AAAA000001F4:::allow:execute\n"
    );

    // The class model synthesizes the mask and stores canonically.
    let entries = vec![
        AclEntry::allow_user("", rwx(true, false, false), Flag::empty()),
        AclEntry::allow_user("500", rwx(false, false, true), Flag::empty()),
        AclEntry::allow_group("", rwx(true, false, false), Flag::empty()),
        AclEntry::allow_other(rwx(true, false, false), Flag::empty()),
    ];
    let acl = Acl::from_entries(Platform::Linux, &entries).unwrap();
    assert_eq!(
        acl.to_platform_text(),
        "user::r--\nuser:500:--x\ngroup::r--\nmask::r-x\nother::r--\n"
    );

    // Insertion-order storage keeps the input order, the synthesized
    // mask last.
    let entries = vec![
        AclEntry::allow_group("", rwx(true, false, false), Flag::empty()),
        AclEntry::allow_other(rwx(true, false, false), Flag::empty()),
        AclEntry::allow_user("500", rwx(false, false, true), Flag::empty()),
        AclEntry::allow_user("", rwx(true, false, false), Flag::empty()),
    ];
    let acl = Acl::from_entries(Platform::FreeBsd, &entries).unwrap();
    assert_eq!(
        acl.to_platform_text(),
        "group::r--\nother::r--\nuser:500:--x\nuser::r--\nmask::r-x\n"
    );

    // A required class entry may not be absent.
    let entries = vec![
        AclEntry::allow_user("500", rwx(false, false, true), Flag::empty()),
        AclEntry::allow_group("", rwx(true, false, false), Flag::empty()),
        AclEntry::allow_other(rwx(true, false, false), Flag::empty()),
    ];
    let err = Acl::from_entries(Platform::Linux, &entries).unwrap_err();
    assert_eq!(err.message, "missing required entry \"user\"");

    // A repeated kind/qualifier pair is rejected with its position.
    let entries = vec![
        AclEntry::allow_user("", rwx(true, false, false), Flag::empty()),
        AclEntry::allow_user("500", rwx(false, false, true), Flag::empty()),
        AclEntry::allow_group("", rwx(true, false, false), Flag::empty()),
        AclEntry::allow_other(rwx(true, false, false), Flag::empty()),
        AclEntry::allow_group("", rwx(false, true, false), Flag::empty()),
    ];
    let err = Acl::from_entries(Platform::Linux, &entries).unwrap_err();
    assert_eq!(err.message, "entry 4: duplicate entry for \"group\"");
}

#[test]
fn test_from_unified_entries() {
    let base = vec![
        AclEntry::allow_user("500", rwx(false, false, true), Flag::empty()),
        AclEntry::allow_group("", rwx(false, true, false), Flag::empty()),
        AclEntry::allow_user("", rwx(true, false, false), Flag::empty()),
        AclEntry::allow_other(rwx(false, false, false), Flag::empty()),
        AclEntry::allow_user("501", rwx(false, false, true), Flag::default_marker()),
        AclEntry::allow_group("", rwx(false, true, false), Flag::default_marker()),
        AclEntry::allow_user("", rwx(true, false, false), Flag::default_marker()),
        AclEntry::allow_other(rwx(false, false, false), Flag::default_marker()),
    ];

    let (access, dflt) = Acl::from_unified_entries(Platform::Linux, &base).unwrap();
    assert_eq!(
        access.to_platform_text(),
        "user::r--\nuser:500:--x\ngroup::-w-\nmask::-wx\nother::---\n"
    );
    assert_eq!(
        dflt.to_platform_text(),
        "user::r--\nuser:501:--x\ngroup::-w-\nmask::-wx\nother::---\n"
    );

    let (access, dflt) = Acl::from_unified_entries(Platform::FreeBsd, &base).unwrap();
    assert_eq!(
        access.to_platform_text(),
        "user:500:--x\ngroup::-w-\nuser::r--\nother::---\nmask::-wx\n"
    );
    assert_eq!(
        dflt.to_platform_text(),
        "user:501:--x\ngroup::-w-\nuser::r--\nother::---\nmask::-wx\n"
    );

    // The default half reports its duplicates with the default wording
    // and the input position.
    let mut dup = base.clone();
    dup.push(AclEntry::allow_group("", rwx(true, false, false), Flag::default_marker()));
    let err = Acl::from_unified_entries(Platform::Linux, &dup).unwrap_err();
    assert_eq!(err.message, "entry 8: duplicate default entry for \"group\"");

    // Each half demands its required entries.
    let missing_access: Vec<AclEntry> = base[0..2].to_vec();
    let err = Acl::from_unified_entries(Platform::Linux, &missing_access).unwrap_err();
    assert_eq!(err.message, "missing required entry \"user\"");
    let mut missing_dflt: Vec<AclEntry> = base[0..5].to_vec();
    missing_dflt.push(AclEntry::allow_group("", rwx(false, true, false), Flag::default_marker()));
    let err = Acl::from_unified_entries(Platform::Linux, &missing_dflt).unwrap_err();
    assert_eq!(err.message, "missing required default entry \"user\"");

    // Only the class-model platforms store a separate default ACL.
    let err = Acl::from_unified_entries(Platform::MacOs, &base).unwrap_err();
    assert_eq!(err.kind, ErrorKind::NotSupported);
}

#[test]
fn test_from_platform_text() {
    // A name in the identifier field is accepted permissively and
    // degrades to the zero identifier.
    let text = "!#acl 1\ngroup:_spotlight:::allow:read,write,execute\n";
    let acl = Acl::from_platform_text(Platform::MacOs, text).unwrap();
    assert_eq!(
        acl.to_platform_text(),
        "!#acl 1\nuser:00000000-0000-0000-0000-000000000000:::allow:read,write,execute\n"
    );

    // A well-formed identifier round-trips byte for byte.
    let text = "!#acl 1\nuser:FFFFEEEE-DDDD-CCCC-BBBB-AAAA000001F4:::allow:read,execute\n";
    let acl = Acl::from_platform_text(Platform::MacOs, text).unwrap();
    assert_eq!(acl.to_platform_text(), text);

    // The class-model grammar round-trips too.
    let text = "user::rw-\nuser:500:--x\ngroup::r--\nmask::r-x\nother::---\n";
    let acl = Acl::from_platform_text(Platform::Linux, text).unwrap();
    assert_eq!(acl.to_platform_text(), text);

    // A malformed document is a validation error.
    let err = Acl::from_platform_text(Platform::Linux, "nonsense").unwrap_err();
    assert_eq!(err.kind, ErrorKind::Validation);
    assert_eq!(err.message, "invalid ACL text");
}

#[test]
fn test_empty_acl() {
    for platform in [Platform::MacOs, Platform::Linux, Platform::FreeBsd] {
        let acl = Acl::from_entries(platform, &vec![]).unwrap();
        assert!(acl.is_empty());
        assert_eq!(acl.entries().unwrap().len(), 0);
    }
}

#[test]
fn test_write_acl_big() {
    let mut entries = Vec::new();
    for i in 0..128u32 {
        entries.push(AclEntry::allow_user(&i.to_string(), rwx(true, true, false), Flag::empty()));
    }
    assert!(Acl::from_entries(Platform::MacOs, &entries).is_ok());
}

#[test]
fn test_write_acl_too_big() {
    let mut entries = Vec::new();
    for i in 0..129u32 {
        entries.push(AclEntry::allow_user(&i.to_string(), rwx(true, true, false), Flag::empty()));
    }
    let err = Acl::from_entries(Platform::MacOs, &entries).unwrap_err();
    assert_eq!(err.kind, ErrorKind::CapacityExceeded);
    assert_eq!(err.message, "Too many ACL entries");
}

#[test]
fn test_reader_writer() {
    let input = "\n    u:aaa:rwx#comment\n    g:bbb:rwx\n    u:ccc:rx\n    ";
    let entries = from_portable_text(input).unwrap();
    assert_eq!(entries.len(), 3);
    assert_eq!(entries[0].kind, AclKind::User);
    assert_eq!(entries[0].name, "aaa");
    assert_eq!(entries[1].kind, AclKind::Group);
    assert_eq!(entries[1].name, "bbb");
    assert_eq!(entries[2].name, "ccc");
    assert!(entries.iter().all(|e| e.allow));
    let output = to_portable_text(&entries);
    assert_eq!(
        output,
        "allow::user:aaa:read,write,execute\nallow::group:bbb:read,write,execute\nallow::user:ccc:read,execute\n"
    );
}

#[test]
fn test_exclusive_acloptions() {
    let obj = FsObject::new(Platform::Linux, false);
    let both = AclOption::access_acl().union(AclOption::default_acl());
    let err = Acl::read(&obj, both).unwrap_err();
    assert_eq!(err.message, "ACCESS_ACL and DEFAULT_ACL are mutually exclusive options");

    let acl = Acl::from_entries(Platform::Linux, &vec![]).unwrap();
    let mut obj = FsObject::new(Platform::Linux, false);
    let err = acl.write(&mut obj, both).unwrap_err();
    assert_eq!(err.message, "ACCESS_ACL and DEFAULT_ACL are mutually exclusive options");
}

#[test]
fn test_write_acl_linux() {
    // A full build-write-read round trip on an in-memory object.
    let entries = vec![
        AclEntry::allow_user("", rwx(true, true, false), Flag::empty()),
        AclEntry::allow_user("11501", rwx(true, false, false), Flag::empty()),
        AclEntry::allow_group("", rwx(true, false, false), Flag::empty()),
        AclEntry::allow_group("11502", rwx(false, false, true), Flag::empty()),
        AclEntry::allow_other(rwx(false, false, false), Flag::empty()),
    ];
    let acl = Acl::from_entries(Platform::Linux, &entries).unwrap();
    let mut obj = FsObject::new(Platform::Linux, false);
    acl.write(&mut obj, AclOption::empty()).unwrap();

    let acl2 = Acl::read(&obj, AclOption::empty()).unwrap();
    let got = acl2.entries().unwrap();
    // Canonical order: owning user, named user, owning group, named
    // group, then the synthesized mask before other.
    assert_eq!(got.len(), 6);
    assert_eq!(got[0].kind, AclKind::User);
    assert_eq!(got[0].name, "");
    assert_eq!(got[1].name, "11501");
    assert_eq!(got[2].kind, AclKind::Group);
    assert_eq!(got[3].name, "11502");
    assert_eq!(got[4].kind, AclKind::Mask);
    assert_eq!(got[4].perms, Perm::new(true, false, true));
    assert_eq!(got[5].kind, AclKind::Other);
}

#[test]
fn test_write_acl_macos() {
    let entries = vec![
        AclEntry::allow_user("11501", rwx(true, false, false), Flag::empty()),
        AclEntry::deny_user("11502", rwx(false, true, false), Flag::empty()),
        AclEntry::allow_group("11503", rwx(false, false, true), Flag::empty()),
        AclEntry::allow_group("11504", rwx(true, true, false), Flag::empty()),
    ];
    let acl = Acl::from_entries(Platform::MacOs, &entries).unwrap();
    let mut obj = FsObject::new(Platform::MacOs, false);
    acl.write(&mut obj, AclOption::empty()).unwrap();
    let back = Acl::read(&obj, AclOption::empty()).unwrap();
    // The richer model keeps insertion order and every field.
    assert_eq!(back.entries().unwrap(), entries);
    // The symlink modifier selects the object itself here.
    let back = Acl::read(&obj, AclOption::symlink_acl()).unwrap();
    assert_eq!(back.entries().unwrap(), entries);
}

#[test]
fn test_read_default_acl() {
    // A file cannot have a default ACL; the suppression option turns the
    // failure into an empty default ACL.
    let obj = FsObject::new(Platform::Linux, false);
    let err = Acl::read(&obj, AclOption::default_acl()).unwrap_err();
    assert_eq!(err.kind, ErrorKind::NotSupported);
    let opts = AclOption::default_acl().union(AclOption::ignore_expected_file_err());
    let acl = Acl::read(&obj, opts).unwrap();
    assert!(acl.is_empty());
}

#[test]
fn test_write_default_acl() {
    let entries = vec![
        AclEntry::allow_user("", rwx(true, true, false), Flag::default_marker()),
        AclEntry::allow_group("", rwx(true, false, false), Flag::default_marker()),
        AclEntry::allow_other(rwx(false, false, false), Flag::default_marker()),
    ];
    let (_, dflt) = Acl::from_unified_entries(Platform::Linux, &{
        let mut all = vec![
            AclEntry::allow_user("", rwx(true, true, false), Flag::empty()),
            AclEntry::allow_group("", rwx(true, false, false), Flag::empty()),
            AclEntry::allow_other(rwx(false, false, false), Flag::empty()),
        ];
        all.extend(entries.clone());
        all
    })
    .unwrap();

    let mut dir = FsObject::new(Platform::Linux, true);
    dflt.write(&mut dir, AclOption::default_acl()).unwrap();

    // Entries read back from a default ACL carry the default marker.
    let back = Acl::read(&dir, AclOption::default_acl()).unwrap();
    let got = back.entries().unwrap();
    assert!(got.len() > 0);
    assert!(got.iter().all(|e| e.flags.is_default));

    // Test deleting a default ACL: writing an empty default ACL clears
    // it.
    let empty = Acl::from_entries(Platform::Linux, &vec![]).unwrap();
    empty.write(&mut dir, AclOption::default_acl()).unwrap();
    let back = Acl::read(&dir, AclOption::default_acl()).unwrap();
    assert!(back.is_empty());
}
