use ironbeard_mcp_filesystem::read::{
    check_read_size, error_section, join_sections, multi_read_section, read_file_report,
};

#[test]
fn read_file_entire_small() {
    let content = b"line one\nline two\nline three".to_vec();
    let output =
        read_file_report("/t/test.txt", "test.txt", &content, 28, None, None).unwrap();
    assert!(output.contains("Lines 1-3 of 3 total"));
    assert!(output.contains("line one"));
    assert!(output.contains("line two"));
    assert!(output.contains("line three"));
}

#[test]
fn read_file_with_offset_and_limit() {
    let content = b"line0\nline1\nline2\nline3\nline4".to_vec();
    let output =
        read_file_report("/t/test.txt", "test.txt", &content, 29, Some(1), Some(2)).unwrap();
    assert!(output.contains("Lines 2-3 of 5 total"));
    assert!(output.contains("line1"));
    assert!(output.contains("line2"));
    assert!(!output.contains("line0"));
    assert!(!output.contains("line3"));
}

#[test]
fn read_file_with_limit_only() {
    let content = b"a\nb\nc\nd".to_vec();
    let output =
        read_file_report("/t/test.txt", "test.txt", &content, 7, None, Some(2)).unwrap();
    assert!(output.contains("Lines 1-2 of 4 total"));
    assert!(output.contains("a\nb"));
    assert!(!output.contains("\nc"));
}

#[test]
fn read_file_too_large() {
    let result = check_read_size("big.txt", 200, 100, false);
    assert!(result.is_err());
    assert!(result.unwrap_err().message().contains("File too large"));
}

#[test]
fn read_file_too_large_bypassed_with_range() {
    assert!(check_read_size("big.txt", 200, 100, true).is_ok());
    let content = b"line1\nline2\nline3".to_vec();
    let output =
        read_file_report("/t/big.txt", "big.txt", &content, 200, Some(0), Some(1)).unwrap();
    assert!(output.contains("line1"));
}

#[test]
fn read_file_binary_detected() {
    let content = b"hello\x00world".to_vec();
    let result = read_file_report("/t/binary.bin", "binary.bin", &content, 11, None, None);
    assert!(result.is_err());
    assert!(result.unwrap_err().contains("Binary file"));
}

#[test]
fn read_file_empty() {
    let content = Vec::new();
    let output = read_file_report("/t/empty.txt", "empty.txt", &content, 0, None, None).unwrap();
    assert!(output.contains("(empty file)"));
    assert!(output.contains("0 B"));
}

#[test]
fn read_file_offset_beyond_end() {
    let content = b"one\ntwo".to_vec();
    let result = read_file_report("/t/test.txt", "test.txt", &content, 7, Some(10), None);
    assert!(result.is_err());
    assert!(result.unwrap_err().contains("beyond end of file"));
}

#[test]
fn read_multiple_files_all_valid() {
    let a = multi_read_section("/t/a.txt", "a.txt", &b"alpha".to_vec(), 5).unwrap();
    let b = multi_read_section("/t/b.txt", "b.txt", &b"bravo\ncharlie".to_vec(), 13).unwrap();
    let c = multi_read_section("/t/c.txt", "c.txt", &b"delta".to_vec(), 5).unwrap();
    let output = join_sections(&vec![a, b, c]);
    assert!(output.contains("=== "));
    assert!(output.contains(" ==="));
    assert!(output.contains("1 lines, 5 B"));
    assert!(output.contains("2 lines,"));
    assert!(output.contains("alpha"));
    assert!(output.contains("bravo"));
    assert!(output.contains("delta"));
}

#[test]
fn read_multiple_files_binary_inline_error() {
    let good = multi_read_section("/t/text.txt", "text.txt", &b"readable".to_vec(), 8).unwrap();
    let bad = multi_read_section("/t/binary.bin", "binary.bin", &b"hello\x00world".to_vec(), 11);
    assert!(bad.is_err());
    let err = error_section("binary.bin", &bad.unwrap_err());
    let output = join_sections(&vec![good, err]);
    assert!(output.contains("readable"));
    assert!(output.contains("Error:"));
    assert!(output.contains("Binary file"));
}
