use libmount::flags::{MS_NODEV, MS_NOEXEC, MS_NOSUID, MS_RELATIME};
use libmount::mountinfo::{ParseError, Parser};

#[test]
fn test_mount_info_parser_proc() {
    let content = b"19 24 0:4 / /proc rw,nosuid,nodev,noexec,relatime shared:12 - proc proc rw";
    let mut parser = Parser::new(&content[..]);
    let mount_point = parser.next().unwrap().unwrap();
    assert_eq!(mount_point.mount_id, 19);
    assert_eq!(mount_point.parent_id, 24);
    assert_eq!(mount_point.major, 0);
    assert_eq!(mount_point.minor, 4);
    assert_eq!(mount_point.root, b"/".to_vec());
    assert_eq!(mount_point.mount_point, b"/proc".to_vec());
    assert_eq!(mount_point.mount_options, b"rw,nosuid,nodev,noexec,relatime".to_vec());
    assert_eq!(mount_point.optional_fields, b"shared:12".to_vec());
    assert_eq!(mount_point.fstype, b"proc".to_vec());
    assert_eq!(mount_point.mount_source, b"proc".to_vec());
    assert_eq!(mount_point.super_options, b"rw".to_vec());
    assert_eq!(mount_point.get_flags(), MS_NOSUID | MS_NODEV | MS_NOEXEC | MS_RELATIME);
    assert!(parser.next().is_none());
}

#[test]
fn test_mount_info_parser_comment() {
    let content = b"# Test comment\n\
                    \t # Another shifted comment\n\
                    19 24 0:4 / /#proc rw,nosuid,nodev,noexec,relatime shared:12 - proc proc rw";
    let mut parser = Parser::new(&content[..]);
    let mount_point = parser.next().unwrap().unwrap();
    assert_eq!(mount_point.mount_id, 19);
    assert_eq!(mount_point.parent_id, 24);
    assert_eq!(mount_point.major, 0);
    assert_eq!(mount_point.minor, 4);
    assert_eq!(mount_point.root, b"/".to_vec());
    assert_eq!(mount_point.mount_point, b"/#proc".to_vec());
    assert_eq!(mount_point.mount_options, b"rw,nosuid,nodev,noexec,relatime".to_vec());
    assert_eq!(mount_point.optional_fields, b"shared:12".to_vec());
    assert_eq!(mount_point.fstype, b"proc".to_vec());
    assert_eq!(mount_point.mount_source, b"proc".to_vec());
    assert_eq!(mount_point.super_options, b"rw".to_vec());
    assert_eq!(mount_point.get_flags(), MS_NOSUID | MS_NODEV | MS_NOEXEC | MS_RELATIME);
    assert!(parser.next().is_none());
}

#[test]
fn test_mount_info_parser_missing_optional_fields() {
    let content = b"335 294 0:56 / /proc rw,relatime - proc proc rw";
    let mut parser = Parser::new(&content[..]);
    let mount_point = parser.next().unwrap().unwrap();
    assert_eq!(mount_point.mount_id, 335);
    assert_eq!(mount_point.parent_id, 294);
    assert_eq!(mount_point.major, 0);
    assert_eq!(mount_point.minor, 56);
    assert_eq!(mount_point.root, b"/".to_vec());
    assert_eq!(mount_point.mount_point, b"/proc".to_vec());
    assert_eq!(mount_point.mount_options, b"rw,relatime".to_vec());
    assert_eq!(mount_point.optional_fields, b"".to_vec());
    assert_eq!(mount_point.fstype, b"proc".to_vec());
    assert_eq!(mount_point.mount_source, b"proc".to_vec());
    assert_eq!(mount_point.super_options, b"rw".to_vec());
    assert_eq!(mount_point.get_flags(), MS_RELATIME);
    assert!(parser.next().is_none());
}

#[test]
fn test_mount_info_parser_more_optional_fields() {
    let content = b"335 294 0:56 / /proc rw,relatime shared:12 master:1 - proc proc rw";
    let mut parser = Parser::new(&content[..]);
    let mount_point = parser.next().unwrap().unwrap();
    assert_eq!(mount_point.mount_id, 335);
    assert_eq!(mount_point.parent_id, 294);
    assert_eq!(mount_point.major, 0);
    assert_eq!(mount_point.minor, 56);
    assert_eq!(mount_point.root, b"/".to_vec());
    assert_eq!(mount_point.mount_point, b"/proc".to_vec());
    assert_eq!(mount_point.mount_options, b"rw,relatime".to_vec());
    assert_eq!(mount_point.optional_fields, b"shared:12 master:1".to_vec());
    assert_eq!(mount_point.fstype, b"proc".to_vec());
    assert_eq!(mount_point.mount_source, b"proc".to_vec());
    assert_eq!(mount_point.super_options, b"rw".to_vec());
    assert_eq!(mount_point.get_flags(), MS_RELATIME);
    assert!(parser.next().is_none());
}

#[test]
fn test_mount_info_parser_escaping() {
    let content =
        br"76 24 8:6 / /home/my\040super\011name\012\134 rw,relatime shared:29 - ext4 /dev/sda1 rw,data=ordered";
    let mut parser = Parser::new(&content[..]);
    let mount_point = parser.next().unwrap().unwrap();
    assert_eq!(mount_point.mount_id, 76);
    assert_eq!(mount_point.parent_id, 24);
    assert_eq!(mount_point.major, 8);
    assert_eq!(mount_point.minor, 6);
    assert_eq!(mount_point.root, b"/".to_vec());
    assert_eq!(mount_point.mount_point, b"/home/my super\tname\n\\".to_vec());
    assert_eq!(mount_point.mount_options, b"rw,relatime".to_vec());
    assert_eq!(mount_point.optional_fields, b"shared:29".to_vec());
    assert_eq!(mount_point.fstype, b"ext4".to_vec());
    assert_eq!(mount_point.mount_source, b"/dev/sda1".to_vec());
    assert_eq!(mount_point.super_options, b"rw,data=ordered".to_vec());
    assert_eq!(mount_point.get_flags(), MS_RELATIME);
    assert!(parser.next().is_none());
}

#[test]
fn test_mount_info_parser_non_utf8() {
    let content = b"22 24 0:19 / /\xff rw shared:5 - tmpfs tmpfs rw,mode=755";
    let mut parser = Parser::new(&content[..]);
    let mount_point = parser.next().unwrap().unwrap();
    assert_eq!(mount_point.mount_point, b"/\xff".to_vec());
    assert_eq!(mount_point.mount_options, b"rw".to_vec());
    assert_eq!(mount_point.fstype, b"tmpfs".to_vec());
    assert_eq!(mount_point.mount_source, b"tmpfs".to_vec());
    assert_eq!(mount_point.get_flags(), 0);
    assert!(parser.next().is_none());
}

#[test]
fn test_mount_info_parser_crlf() {
    let content = b"26 20 0:21 / /tmp rw shared:4 - tmpfs tmpfs rw\r\n\
                    \n\
                    \r\n\
                    27 22 0:22 / /tmp rw,nosuid,nodev shared:6 - tmpfs tmpfs rw\r";
    let mut parser = Parser::new(&content[..]);
    let mount_point = parser.next().unwrap().unwrap();
    assert_eq!(mount_point.mount_point, b"/tmp".to_vec());
    assert_eq!(mount_point.mount_options, b"rw".to_vec());
    assert_eq!(mount_point.super_options, b"rw".to_vec());
    assert_eq!(mount_point.get_flags(), 0);
    let mount_point = parser.next().unwrap().unwrap();
    assert_eq!(mount_point.mount_point, b"/tmp".to_vec());
    assert_eq!(mount_point.mount_options, b"rw,nosuid,nodev".to_vec());
    assert_eq!(mount_point.super_options, b"rw".to_vec());
    assert_eq!(mount_point.get_flags(), MS_NOSUID | MS_NODEV);
    assert!(parser.next().is_none());
}

#[test]
fn test_mount_info_parser_incomplete_row() {
    let content = b"19 24 0:4 / /proc rw,relatime shared:12 - proc proc";
    let mut parser = Parser::new(&content[..]);
    let mount_info_res = parser.next().unwrap();
    assert!(mount_info_res.is_err());
    match mount_info_res {
        Err(ParseError { ref msg, .. }) => {
            assert_eq!(msg, "Expected more fields");
        },
        _ => panic!("Expected incomplete row error"),
    }
    assert!(parser.next().is_none());
}

#[test]
fn test_mount_info_parser_invalid_int() {
    let content = b"19 24b 0:4 / /proc rw,relatime - proc proc rw";
    let mut parser = Parser::new(&content[..]);
    let mount_info_res = parser.next().unwrap();
    assert!(mount_info_res.is_err());
    match mount_info_res {
        Err(ParseError { ref msg, .. }) => {
            assert!(msg.starts_with("Cannot parse integer \"24b\":"));
        },
        _ => panic!("Expected invalid row error"),
    }
    assert!(parser.next().is_none());
}

#[test]
fn test_mount_info_parser_overflowed_int() {
    let content = b"111111111111111111111";
    let mut parser = Parser::new(&content[..]);
    let mount_info_res = parser.next().unwrap();
    assert!(mount_info_res.is_err());
    match mount_info_res {
        Err(ParseError { ref msg, .. }) => {
            assert!(msg.starts_with("Cannot parse integer \"111111111111111111111\""));
        },
        _ => panic!("Expected invalid row error"),
    }
    assert!(parser.next().is_none());
}

#[test]
fn test_mount_info_parser_invalid_escape() {
    let content = b"19 24 0:4 / /proc\\1 rw,relatime - proc proc rw";
    let mut parser = Parser::new(&content[..]);
    let mount_point = parser.next().unwrap().unwrap();
    assert_eq!(mount_point.mount_point, b"/proc\\1".to_vec());
    assert!(parser.next().is_none());
}

#[test]
fn test_mount_info_parser_overflowed_escape() {
    let content = b"19 24 0:4 / /proc\\400 rw,nosuid,nodev,noexec,relatime - proc proc rw";
    let mut parser = Parser::new(&content[..]);
    let mount_point = parser.next().unwrap().unwrap();
    assert_eq!(mount_point.mount_point, b"/proc\x00".to_vec());
    assert!(parser.next().is_none());
}

#[test]
fn test_parse_error_row_number() {
    // the error names the 1-based number of the offending row
    let content = b"19 24 0:4 / /proc rw - proc proc rw\n\
                    20 24 0:5 / /sys rw - sysfs\n\
                    21 24 0:6 / /dev rw - devtmpfs dev rw";
    let mut parser = Parser::new(&content[..]);
    assert!(parser.next().unwrap().is_ok());
    let err = parser.next().unwrap().unwrap_err();
    assert_eq!(err.msg, "Expected more fields");
    assert_eq!(err.row_num, 2);
    assert_eq!(err.row, "20 24 0:5 / /sys rw - sysfs");
    assert!(parser.next().unwrap().is_ok());
    assert!(parser.next().is_none());
}

#[test]
fn test_parse_error_row_number_last_line() {
    // a truncated final row without a newline is still counted
    let content = b"19 24 0:4 / /proc rw - proc proc rw\n20 24 0:5 / /sys rw - sysfs";
    let mut parser = Parser::new(&content[..]);
    assert!(parser.next().unwrap().is_ok());
    let err = parser.next().unwrap().unwrap_err();
    assert_eq!(err.row_num, 2);
    assert!(parser.next().is_none());
}

#[test]
fn test_overflow_message_distinct_from_invalid() {
    // the overflow failure differs from a plain non-numeric failure only
    // in its message, and reproducibly so
    let overflowing = b"111111111111111111111 24 0:4 / /proc rw - proc proc rw";
    let invalid = b"24b 24 0:4 / /proc rw - proc proc rw";
    let msg_overflow = Parser::new(&overflowing[..]).next().unwrap().unwrap_err().msg;
    let msg_invalid = Parser::new(&invalid[..]).next().unwrap().unwrap_err().msg;
    assert_eq!(
        msg_overflow,
        "Cannot parse integer \"111111111111111111111\": number too large to fit in target type"
    );
    assert_eq!(msg_invalid, "Cannot parse integer \"24b\": invalid digit found in string");
    let again = Parser::new(&overflowing[..]).next().unwrap().unwrap_err().msg;
    assert_eq!(msg_overflow, again);
}

#[test]
fn test_parse_error_to_text() {
    let content = b"19 24 0:4 / /proc rw - proc proc rw\n20 24 0:5 / /sys rw - sysfs\n";
    let mut parser = Parser::new(&content[..]);
    assert!(parser.next().unwrap().is_ok());
    let err = parser.next().unwrap().unwrap_err();
    assert_eq!(
        err.to_text(),
        "Parse error at line 2: Expected more fields\n20 24 0:5 / /sys rw - sysfs"
    );
}

#[test]
fn test_decimal_string() {
    assert_eq!(libmount::text::decimal_string(0), "0");
    assert_eq!(libmount::text::decimal_string(7), "7");
    assert_eq!(libmount::text::decimal_string(1048576), "1048576");
    assert_eq!(libmount::text::decimal_string(u64::MAX), "18446744073709551615");
}

#[test]
fn test_parse_error_row_lossy_text() {
    // the row text of an error decodes non-UTF-8 bytes lossily; the raw
    // bytes stay available in the quoted message field
    let content = b"x\xff 24 0:4 / /proc rw - proc proc rw";
    let err = Parser::new(&content[..]).next().unwrap().unwrap_err();
    assert_eq!(err.row, "x\u{fffd} 24 0:4 / /proc rw - proc proc rw");
    assert!(err.msg.starts_with("Cannot parse integer \"x\u{fffd}\":"));
}
