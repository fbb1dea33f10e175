use libmount::explain::exists_str;
use libmount::overlay::overlay_options;
use libmount::{Error, OSError};

#[test]
fn test_overlay_options_readonly() {
    let lowerdirs = vec![b"/top".to_vec(), b"/base".to_vec()];
    let options = overlay_options(&lowerdirs, &None, &None);
    assert_eq!(options, b"lowerdir=/top:/base".to_vec());
}

#[test]
fn test_overlay_options_writable() {
    let lowerdirs = vec![b"/base".to_vec()];
    let options = overlay_options(
        &lowerdirs,
        &Some(b"/upper".to_vec()),
        &Some(b"/work".to_vec()),
    );
    assert_eq!(options, b"lowerdir=/base,upperdir=/upper,workdir=/work".to_vec());
}

#[test]
fn test_overlay_options_escaping() {
    // colon, comma and backslash in a path must not break the list
    let lowerdirs = vec![b"/a:b".to_vec(), b"/c,d".to_vec(), b"/e\\f".to_vec()];
    let options = overlay_options(&lowerdirs, &None, &None);
    assert_eq!(options, b"lowerdir=/a\\:b:/c\\,d:/e\\\\f".to_vec());
}

#[test]
fn test_exists_str() {
    assert_eq!(exists_str(true), "exists");
    assert_eq!(exists_str(false), "missing");
}

#[test]
fn test_error_to_text() {
    let os_error = OSError::from_io(
        "Device or resource busy".to_string(),
        "remount \"/tmp\"".to_string(),
    );
    let error: Error = os_error.explain("path: exists, regular-user".to_string());
    assert_eq!(
        error.to_text(),
        "remount \"/tmp\": Device or resource busy (path: exists, regular-user)"
    );
}
