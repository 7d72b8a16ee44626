use ironbeard_mcp_filesystem::search::search_files;
use ironbeard_mcp_filesystem::SecurityContext;
use std::io::Write;

fn canon_string(p: &std::path::Path) -> String {
    p.canonicalize().unwrap().to_str().unwrap().to_string()
}

fn path_string(p: &std::path::Path) -> String {
    p.to_str().unwrap().to_string()
}

fn setup() -> (tempfile::TempDir, SecurityContext) {
    let dir = tempfile::TempDir::new().unwrap();
    let canonical = canon_string(dir.path());
    let ctx = SecurityContext::new(vec![canonical]);
    (dir, ctx)
}

fn make_file(dir: &std::path::Path, name: &str, content: &[u8]) -> tempfile::NamedTempFile {
    let mut f = tempfile::Builder::new().prefix(name).rand_bytes(0).tempfile_in(dir).unwrap();
    f.write_all(content).unwrap();
    f.flush().unwrap();
    f
}

fn make_dir(parent: &std::path::Path, name: &str) -> tempfile::TempDir {
    tempfile::Builder::new().prefix(name).rand_bytes(0).tempdir_in(parent).unwrap()
}

#[test]
fn search_files_finds_matching() {
    let (dir, ctx) = setup();
    let _m = make_file(dir.path(), "main.rs", b"fn main() {}");
    let _l = make_file(dir.path(), "lib.rs", b"// lib");
    let _r = make_file(dir.path(), "readme.md", b"# Readme");

    let output = search_files(&ctx, &path_string(dir.path()), "*.rs", None, 10).unwrap();
    assert!(output.contains("main.rs"));
    assert!(output.contains("lib.rs"));
    assert!(!output.contains("readme.md"));
    assert!(output.contains("2 matches"));
}

#[test]
fn search_files_invalid_glob() {
    let (dir, ctx) = setup();
    let result = search_files(&ctx, &path_string(dir.path()), "[invalid", None, 10);
    assert!(result.is_err());
    assert!(result.unwrap_err().contains("Invalid pattern"));
}

#[test]
fn search_files_respects_max_results() {
    let (dir, ctx) = setup();
    let mut handles = Vec::new();
    for i in 0..10 {
        handles.push(make_file(dir.path(), &format!("file{i}.txt"), b"content"));
    }

    let output = search_files(&ctx, &path_string(dir.path()), "*.txt", Some(3), 10).unwrap();
    assert!(output.contains("3 matches"));
    assert!(output.contains("truncated"));
}

#[test]
fn search_files_respects_max_depth() {
    let (dir, ctx) = setup();
    let _r = make_file(dir.path(), "root.txt", b"root");
    let sub = make_dir(dir.path(), "sub");
    let _n = make_file(sub.path(), "nested.txt", b"nested");
    let deep = make_dir(sub.path(), "deep");
    let _d = make_file(deep.path(), "deep.txt", b"deep");

    let output = search_files(&ctx, &path_string(dir.path()), "**/*.txt", None, 1).unwrap();
    assert!(output.contains("root.txt"));
    assert!(output.contains("nested.txt"));
    assert!(!output.contains("deep.txt"));
}

#[test]
fn search_files_no_matches() {
    let (dir, ctx) = setup();
    let _f = make_file(dir.path(), "file.txt", b"content");
    let output = search_files(&ctx, &path_string(dir.path()), "*.rs", None, 10).unwrap();
    assert!(output.contains("No matches"));
}

#[test]
fn search_files_denied_outside() {
    let (_dir, ctx) = setup();
    let other = tempfile::TempDir::new().unwrap();
    let result = search_files(&ctx, &path_string(other.path()), "*.txt", None, 10);
    assert!(result.is_err());
    assert!(result.unwrap_err().contains("Access denied"));
}
