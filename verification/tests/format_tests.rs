use ironbeard_mcp_filesystem::error::{io_error_message, IoFailure};
use ironbeard_mcp_filesystem::util::{civil_from_days, format_date, format_size, u64_to_string};
use ironbeard_mcp_filesystem::FsError;

#[test]
fn format_size_bytes() {
    assert_eq!(format_size(0), "0 B");
    assert_eq!(format_size(512), "512 B");
    assert_eq!(format_size(1023), "1023 B");
}

#[test]
fn format_size_kilobytes() {
    assert_eq!(format_size(1024), "1.0 KB");
    assert_eq!(format_size(1536), "1.5 KB");
}

#[test]
fn format_size_megabytes() {
    assert_eq!(format_size(1_048_576), "1.0 MB");
}

#[test]
fn format_size_gigabytes() {
    assert_eq!(format_size(1_610_612_736), "1.5 GB");
}

#[test]
fn format_size_rounds_half_to_even() {
    assert_eq!(format_size(1280), "1.2 KB");
    assert_eq!(format_size(1792), "1.8 KB");
}

#[test]
fn format_date_epoch() {
    assert_eq!(format_date(0), "1970-01-01");
}

#[test]
fn format_date_known() {
    // 2000-01-01 00:00:00 UTC = 946684800 seconds
    assert_eq!(format_date(946_684_800), "2000-01-01");
}

#[test]
fn format_date_leap_day() {
    assert_eq!(format_date(1_709_164_800), "2024-02-29");
}

#[test]
fn format_date_end_of_year() {
    assert_eq!(format_date(946_598_400), "1999-12-31");
}

#[test]
fn civil_from_days_examples() {
    assert_eq!(civil_from_days(0), (1970, 1, 1));
    assert_eq!(civil_from_days(-1), (1969, 12, 31));
    assert_eq!(civil_from_days(11016), (2000, 2, 29));
}

#[test]
fn u64_to_string_extremes() {
    assert_eq!(u64_to_string(0), "0");
    assert_eq!(u64_to_string(18_446_744_073_709_551_615), "18446744073709551615");
}

#[test]
fn io_error_message_permission_denied() {
    let err = IoFailure { permission_denied: true, message: "access denied".to_string() };
    let msg = io_error_message(&err, "/some/path");
    assert!(msg.contains("Permission denied by operating system"));
    assert!(msg.contains("/some/path"));
}

#[test]
fn io_error_message_other_error() {
    let err = IoFailure { permission_denied: false, message: "file not found".to_string() };
    let msg = io_error_message(&err, "/some/path");
    assert!(msg.contains("file not found"));
    assert!(!msg.contains("Permission denied"));
}

#[test]
fn error_messages_exact() {
    let e = FsError::PathDenied { path: "/secret".to_string() };
    assert_eq!(e.message(), "Access denied: /secret");
    let e = FsError::NotFound { path: "/missing".to_string() };
    assert_eq!(e.message(), "Not found: /missing");
    let e = FsError::NotAFile { path: "d".to_string() };
    assert_eq!(e.message(), "Not a file: d");
    let e = FsError::NotADirectory { path: "f".to_string() };
    assert_eq!(e.message(), "Not a directory: f");
    let e = FsError::FileTooLarge { path: "big.txt".to_string(), size: 200, max: 100 };
    assert_eq!(e.message(), "File too large: big.txt (200 bytes, max 100 bytes)");
    let e = FsError::IoError { message: "disk failure".to_string() };
    assert_eq!(e.message(), "disk failure");
    let e = FsError::PatternError { message: "bad".to_string() };
    assert_eq!(e.message(), "Invalid pattern: bad");
    let e = FsError::EditFailed { path: "x".to_string(), reason: "why".to_string() };
    assert_eq!(e.message(), "Edit failed on x: why");
}
