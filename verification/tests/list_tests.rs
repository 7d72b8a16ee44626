use ironbeard_mcp_filesystem::list::{format_allowed_directories, list_directory};
use ironbeard_mcp_filesystem::SecurityContext;
use std::io::Write;

fn canon_string(p: &std::path::Path) -> String {
    p.canonicalize().unwrap().to_str().unwrap().to_string()
}

fn path_string(p: &std::path::Path) -> String {
    p.to_str().unwrap().to_string()
}

fn setup() -> (tempfile::TempDir, SecurityContext) {
    let dir = tempfile::TempDir::new().unwrap();
    let canonical = canon_string(dir.path());
    let ctx = SecurityContext::new(vec![canonical]);
    (dir, ctx)
}

fn make_file(dir: &std::path::Path, name: &str, content: &[u8]) -> tempfile::NamedTempFile {
    let mut f = tempfile::Builder::new().prefix(name).rand_bytes(0).tempfile_in(dir).unwrap();
    f.write_all(content).unwrap();
    f.flush().unwrap();
    f
}

fn make_dir(parent: &std::path::Path, name: &str) -> tempfile::TempDir {
    tempfile::Builder::new().prefix(name).rand_bytes(0).tempdir_in(parent).unwrap()
}

#[test]
fn format_single_directory() {
    let dir = tempfile::TempDir::new().unwrap();
    let canon = canon_string(dir.path());
    let ctx = SecurityContext::new(vec![canon.clone()]);
    let result = format_allowed_directories(&ctx);
    assert_eq!(result, canon);
}

#[test]
fn format_multiple_directories() {
    let dir1 = tempfile::TempDir::new().unwrap();
    let dir2 = tempfile::TempDir::new().unwrap();
    let c1 = canon_string(dir1.path());
    let c2 = canon_string(dir2.path());
    let ctx = SecurityContext::new(vec![c1.clone(), c2.clone()]);
    let result = format_allowed_directories(&ctx);
    let lines: Vec<&str> = result.lines().collect();
    assert_eq!(lines.len(), 2);
    assert!(lines.contains(&c1.as_str()));
    assert!(lines.contains(&c2.as_str()));
}

#[test]
fn format_empty_directories() {
    let ctx = SecurityContext::new(vec![]);
    let result = format_allowed_directories(&ctx);
    assert!(result.is_empty());
}

#[test]
fn list_directory_shows_contents() {
    let (dir, ctx) = setup();
    let _sub = make_dir(dir.path(), "subdir");
    let _f = make_file(dir.path(), "hello.txt", b"hello world");

    let output = list_directory(&ctx, &path_string(dir.path())).unwrap();
    assert!(output.contains("[DIR]  subdir/"));
    assert!(output.contains("[FILE] hello.txt"));
    assert!(output.contains("11 B"));
    let dir_pos = output.find("[DIR]").unwrap();
    let file_pos = output.find("[FILE]").unwrap();
    assert!(dir_pos < file_pos);
}

#[test]
fn list_directory_empty_dir() {
    let (dir, ctx) = setup();
    let output = list_directory(&ctx, &path_string(dir.path())).unwrap();
    assert_eq!(output, "(empty directory)");
}

#[test]
fn list_directory_denied_outside() {
    let (_dir, ctx) = setup();
    let other = tempfile::TempDir::new().unwrap();
    let result = list_directory(&ctx, &path_string(other.path()));
    assert!(result.is_err());
    assert!(result.unwrap_err().contains("Access denied"));
}

#[test]
fn list_directory_sorted_alphabetically() {
    let (dir, ctx) = setup();
    let _z = make_dir(dir.path(), "zeta");
    let _a = make_dir(dir.path(), "alpha");
    let _b = make_file(dir.path(), "banana.txt", b"b");
    let _ap = make_file(dir.path(), "apple.txt", b"a");

    let output = list_directory(&ctx, &path_string(dir.path())).unwrap();
    let lines: Vec<&str> = output.lines().collect();
    assert!(lines[0].contains("alpha/"));
    assert!(lines[1].contains("zeta/"));
    assert!(lines[2].contains("apple.txt"));
    assert!(lines[3].contains("banana.txt"));
}

#[test]
fn list_directory_truncates_large() {
    let (dir, ctx) = setup();
    let mut handles = Vec::new();
    for i in 0..1005 {
        handles.push(make_file(dir.path(), &format!("file{i:04}.txt"), b"x"));
    }

    let output = list_directory(&ctx, &path_string(dir.path())).unwrap();
    assert!(output.contains("Showing first 1000"));
    assert!(output.contains("1005 entries"));
    assert!(output.contains("search_files"));
    let file_lines: Vec<&str> = output.lines().filter(|l| l.starts_with("[FILE]")).collect();
    assert_eq!(file_lines.len(), 1000);
}

#[test]
fn list_directory_shows_hidden_entries() {
    let (dir, ctx) = setup();
    let _h = make_file(dir.path(), ".gitignore", b"target/");
    let _v = make_file(dir.path(), "visible.txt", b"visible");

    let output = list_directory(&ctx, &path_string(dir.path())).unwrap();
    assert!(output.contains(".gitignore"));
    assert!(output.contains("visible.txt"));
}
