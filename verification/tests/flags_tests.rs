use libmount::flags::{
    apply_flag, mount_options_flags, token_flag, MS_DIRSYNC, MS_MANDLOCK, MS_NOATIME, MS_NODEV,
    MS_NODIRATIME, MS_NOEXEC, MS_NOSUID, MS_RDONLY, MS_RELATIME, MS_STRICTATIME, MS_SYNCHRONOUS,
};

#[test]
fn test_token_flags() {
    assert_eq!(token_flag(b"ro"), MS_RDONLY);
    assert_eq!(token_flag(b"nosuid"), MS_NOSUID);
    assert_eq!(token_flag(b"nodev"), MS_NODEV);
    assert_eq!(token_flag(b"noexec"), MS_NOEXEC);
    assert_eq!(token_flag(b"mand"), MS_MANDLOCK);
    assert_eq!(token_flag(b"sync"), MS_SYNCHRONOUS);
    assert_eq!(token_flag(b"dirsync"), MS_DIRSYNC);
    assert_eq!(token_flag(b"noatime"), MS_NOATIME);
    assert_eq!(token_flag(b"nodiratime"), MS_NODIRATIME);
    assert_eq!(token_flag(b"relatime"), MS_RELATIME);
    assert_eq!(token_flag(b"strictatime"), MS_STRICTATIME);
    // unrecognized tokens are ignored
    assert_eq!(token_flag(b"rw"), 0);
    assert_eq!(token_flag(b"mode=755"), 0);
    assert_eq!(token_flag(b""), 0);
}

#[test]
fn test_mount_options_flags() {
    assert_eq!(
        mount_options_flags(b"ro,nosuid,nodev,noexec,relatime"),
        MS_RDONLY | MS_NOSUID | MS_NODEV | MS_NOEXEC | MS_RELATIME
    );
    assert_eq!(mount_options_flags(b"rw"), 0);
    assert_eq!(mount_options_flags(b""), 0);
    assert_eq!(
        mount_options_flags(b"rw,mode=755,strictatime,mand,dirsync,sync"),
        MS_STRICTATIME | MS_MANDLOCK | MS_DIRSYNC | MS_SYNCHRONOUS
    );
    assert_eq!(mount_options_flags(b"noatime,nodiratime"), MS_NOATIME | MS_NODIRATIME);
}

#[test]
fn test_apply_flag() {
    assert_eq!(apply_flag(0, MS_RDONLY, Some(true)), MS_RDONLY);
    assert_eq!(apply_flag(MS_RDONLY | MS_NODEV, MS_RDONLY, Some(false)), MS_NODEV);
    assert_eq!(apply_flag(MS_NODEV, MS_RDONLY, None), MS_NODEV);
}
