use ironbeard_mcp_filesystem::edit::{edit_file_content, EditOperation};
use ironbeard_mcp_filesystem::info::{file_info_report, FileMeta};

fn edit(old_text: &str, new_text: &str) -> EditOperation {
    EditOperation { old_text: old_text.to_string(), new_text: new_text.to_string() }
}

#[test]
fn edit_file_success() {
    let original = "Hello World\nGoodbye World\n".to_string();
    let edits = vec![edit("Hello World", "Hi World")];
    let (content, report) =
        edit_file_content("/t/test.txt", "test.txt", original, &edits).unwrap();
    assert_eq!(content, "Hi World\nGoodbye World\n");
    assert!(report.contains("Applied 1 edit(s)"));
    assert!(report.contains("-Hello World"));
    assert!(report.contains("+Hi World"));
}

#[test]
fn edit_file_old_text_missing() {
    let original = "Hello World\n".to_string();
    let edits = vec![edit("NONEXISTENT", "replacement")];
    let result = edit_file_content("/t/test.txt", "test.txt", original, &edits);
    assert!(result.is_err());
    assert!(result.unwrap_err().contains("old_text not found"));
}

#[test]
fn edit_file_ambiguous_match() {
    let original = "foo bar foo\n".to_string();
    let edits = vec![edit("foo", "baz")];
    let result = edit_file_content("/t/test.txt", "test.txt", original, &edits);
    assert!(result.is_err());
    assert!(result.unwrap_err().contains("matches 2 locations"));
}

#[test]
fn edit_file_diff_output_format() {
    let original = "fn main() {\n    println!(\"old\");\n}\n".to_string();
    let edits = vec![edit("\"old\"", "\"new\"")];
    let (_content, report) =
        edit_file_content("/t/code.rs", "code.rs", original, &edits).unwrap();
    assert!(report.contains("\"old\""));
    assert!(report.contains("\"new\""));
    assert!(report.contains("---"));
    assert!(report.contains("+++"));
}

#[test]
fn edit_file_sequential_edits() {
    let original = "one two three".to_string();
    let edits = vec![edit("one", "1"), edit("two", "2"), edit("three", "3")];
    let (content, report) = edit_file_content("/t/n.txt", "n.txt", original, &edits).unwrap();
    assert_eq!(content, "1 2 3");
    assert!(report.contains("Applied 3 edit(s)"));
}

#[test]
fn edit_file_rejects_empty_old_text() {
    let original = "anything".to_string();
    let edits = vec![edit("", "x")];
    let result = edit_file_content("/t/n.txt", "n.txt", original, &edits);
    assert!(result.is_err());
    assert!(result.unwrap_err().contains("must not be empty"));
}

#[test]
fn get_file_info_for_file() {
    let meta = FileMeta {
        is_file: true,
        is_dir: false,
        is_symlink: false,
        size: 11,
        modified_secs: Some(946_684_800),
        created_secs: None,
    };
    let output = file_info_report("/t/test.txt", &meta, "644");
    assert!(output.contains("Type: file"));
    assert!(output.contains("11 B"));
    assert!(output.contains("text/plain"));
    assert!(output.contains("Modified: 2000-01-01"));
    assert!(output.contains("Created: unknown"));
    assert!(output.contains("Permissions: 644"));
}

#[test]
fn get_file_info_for_directory() {
    let meta = FileMeta {
        is_file: false,
        is_dir: true,
        is_symlink: false,
        size: 4096,
        modified_secs: None,
        created_secs: None,
    };
    let output = file_info_report("/t/subdir", &meta, "755");
    assert!(output.contains("Type: directory"));
    assert!(output.contains("MIME: N/A"));
}

#[test]
fn get_file_info_mime_type() {
    let meta = FileMeta {
        is_file: true,
        is_dir: false,
        is_symlink: false,
        size: 8,
        modified_secs: None,
        created_secs: None,
    };
    let output = file_info_report("/t/image.png", &meta, "644");
    assert!(output.contains("image/png"));
}
