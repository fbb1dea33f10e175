use libmount::explain::exists_str;
use libmount::flags::{
    MountFlags, MS_BIND, MS_DIRSYNC, MS_MANDLOCK, MS_NOATIME, MS_NODEV, MS_NODIRATIME, MS_NOEXEC,
    MS_NOSUID, MS_RDONLY, MS_RELATIME, MS_REMOUNT, MS_STRICTATIME, MS_SYNCHRONOUS,
};
use libmount::remount::{get_mountpoint_flags_from, Remount, RemountError};
use libmount::{OSError};

#[test]
fn test_mount_flags() {
    let flags = MountFlags {
        bind: Some(true),
        readonly: Some(true),
        nodev: Some(true),
        noexec: Some(true),
        nosuid: Some(true),
        noatime: Some(true),
        nodiratime: Some(true),
        relatime: Some(true),
        strictatime: Some(true),
        dirsync: Some(true),
        synchronous: Some(true),
        mandlock: Some(true),
    };
    let bits = MS_BIND | MS_RDONLY | MS_NODEV | MS_NOEXEC | MS_NOSUID | MS_NOATIME | MS_NODIRATIME
        | MS_RELATIME | MS_STRICTATIME | MS_DIRSYNC | MS_SYNCHRONOUS | MS_MANDLOCK;
    assert_eq!(flags.apply_to_flags(0), bits);

    let flags = MountFlags {
        bind: Some(false),
        readonly: Some(false),
        nodev: Some(false),
        noexec: Some(false),
        nosuid: Some(false),
        noatime: Some(false),
        nodiratime: Some(false),
        relatime: Some(false),
        strictatime: Some(false),
        dirsync: Some(false),
        synchronous: Some(false),
        mandlock: Some(false),
    };
    assert_eq!(flags.apply_to_flags(bits), 0);

    let flags = MountFlags::default();
    assert_eq!(flags.apply_to_flags(0), 0);
    assert_eq!(flags.apply_to_flags(bits), bits);
}

#[test]
fn test_apply_overrides_clears_exactly_readonly() {
    // clearing readonly on a base that has it clears that bit and no other
    let overrides = MountFlags { readonly: Some(false), ..MountFlags::default() };
    let base = MS_RDONLY | MS_NOSUID | MS_RELATIME;
    assert_eq!(overrides.apply_to_flags(base), MS_NOSUID | MS_RELATIME);
}

#[test]
fn test_remount() {
    let remount = Remount::new("/");
    assert_eq!(remount.describe(), "remount \"/\"");

    let remount = Remount::new("/").readonly(true).nodev(true);
    assert_eq!(remount.describe(), "ro,nodev remount \"/\"");
}

#[test]
fn test_get_mountpoint_flags_from() {
    let content = b"19 24 0:4 / /proc rw,nosuid,nodev,noexec,relatime shared:12 - proc proc rw";
    let flags = get_mountpoint_flags_from(&content[..], b"/proc").unwrap().unwrap();
    assert_eq!(flags, MS_NODEV | MS_NOEXEC | MS_NOSUID | MS_RELATIME);
}

#[test]
fn test_get_mountpoint_flags_from_dups() {
    let content = b"11 18 0:4 / /tmp rw shared:28 - tmpfs tmpfs rw\n\
                    12 18 0:6 / /tmp rw,nosuid,nodev shared:29 - tmpfs tmpfs rw\n";
    let flags = get_mountpoint_flags_from(&content[..], b"/tmp").unwrap().unwrap();
    assert_eq!(flags, MS_NOSUID | MS_NODEV);
}

#[test]
fn test_get_mountpoint_flags_from_unknown() {
    let content = b"19 24 0:4 / /proc rw - proc proc rw";
    assert!(get_mountpoint_flags_from(&content[..], b"/nowhere").unwrap().is_none());
}

#[test]
fn test_plan_flags_merges_and_marks_remount() {
    let content = b"19 24 0:4 / /proc rw,nosuid,nodev,noexec,relatime shared:12 - proc proc rw";
    let plan = Remount::new("/proc").readonly(true).noexec(false);
    let flags = plan.plan_flags(&content[..]).unwrap();
    assert_eq!(flags, MS_NOSUID | MS_NODEV | MS_RELATIME | MS_RDONLY | MS_REMOUNT);
}

#[test]
fn test_plan_flags_last_match_wins() {
    let content = b"11 18 0:4 / /tmp ro shared:28 - tmpfs tmpfs rw\n\
                    12 18 0:6 / /tmp rw,nosuid shared:29 - tmpfs tmpfs rw\n";
    let plan = Remount::new("/tmp");
    let flags = plan.plan_flags(&content[..]).unwrap();
    assert_eq!(flags, MS_NOSUID | MS_REMOUNT);
}

#[test]
fn test_plan_flags_parse_error() {
    let content = b"19 24b 0:4 / /proc rw - proc proc rw";
    let err = Remount::new("/proc").plan_flags(&content[..]).unwrap_err();
    match err {
        RemountError::ParseMountInfo(msg) => {
            assert!(msg.starts_with("Cannot parse integer \"24b\":"));
        },
        _ => panic!("Expected parse error"),
    }
}

#[test]
fn test_remount_unknown_mountpoint() {
    let content = b"19 24 0:4 / /proc rw,relatime shared:12 - proc proc rw";
    let remount = Remount::new("/non-existent");
    let operation = remount.describe();
    let error = remount.plan_flags(&content[..]).unwrap_err();
    match &error {
        RemountError::UnknownMountPoint(p) => assert_eq!(p, &b"/non-existent".to_vec()),
        _ => panic!(),
    }
    assert_eq!(error.message(), "Cannot find mount point: \"/non-existent\"");
    let os_error = OSError::from_remount(error, operation);
    let probes = format!("path: {}, {}", exists_str(false), "regular-user");
    let explained = os_error.explain(probes);
    assert_eq!(explained.message, "Cannot find mount point: \"/non-existent\"");
    assert!(explained.explanation.starts_with(
        "Cannot find mount point: \"/non-existent\", path: missing, "
    ));
}

#[test]
fn test_remount_error_message_lossy_path() {
    // a non-UTF-8 target is still quotable in the message
    let error = RemountError::UnknownMountPoint(b"/\xff".to_vec());
    assert_eq!(error.message(), "Cannot find mount point: \"/\u{fffd}\"");
}

#[test]
fn test_mount_flags_describe_order() {
    let flags = MountFlags {
        bind: Some(true),
        readonly: Some(true),
        mandlock: Some(true),
        synchronous: Some(true),
        ..MountFlags::default()
    };
    assert_eq!(flags.describe(), "bind,ro,sync,mand");
}

#[test]
fn test_remount_new_from_bytes() {
    let remount = Remount::new_from_bytes(b"/\xff".to_vec()).readonly(true);
    assert_eq!(remount.describe(), "ro remount \"/\u{fffd}\"");
}
