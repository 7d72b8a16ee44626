use ironbeard_mcp_filesystem::tree::directory_tree;
use ironbeard_mcp_filesystem::SecurityContext;
use std::io::Write;

fn canon_string(p: &std::path::Path) -> String {
    p.canonicalize().unwrap().to_str().unwrap().to_string()
}

fn path_string(p: &std::path::Path) -> String {
    p.to_str().unwrap().to_string()
}

fn setup() -> (tempfile::TempDir, SecurityContext) {
    let dir = tempfile::TempDir::new().unwrap();
    let canonical = canon_string(dir.path());
    let ctx = SecurityContext::new(vec![canonical]);
    (dir, ctx)
}

fn make_file(dir: &std::path::Path, name: &str, content: &[u8]) -> tempfile::NamedTempFile {
    let mut f = tempfile::Builder::new().prefix(name).rand_bytes(0).tempfile_in(dir).unwrap();
    f.write_all(content).unwrap();
    f.flush().unwrap();
    f
}

fn make_dir(parent: &std::path::Path, name: &str) -> tempfile::TempDir {
    tempfile::Builder::new().prefix(name).rand_bytes(0).tempdir_in(parent).unwrap()
}

#[test]
fn directory_tree_correct_structure() {
    let (dir, ctx) = setup();
    let src = make_dir(dir.path(), "src");
    let _m = make_file(src.path(), "main.rs", b"fn main() {}");
    let _c = make_file(dir.path(), "Cargo.toml", b"[package]");

    let output = directory_tree(&ctx, &path_string(dir.path()), 10).unwrap();
    assert!(output.contains("src/"));
    assert!(output.contains("main.rs"));
    assert!(output.contains("Cargo.toml"));
    assert!(
        output.contains("\u{251c}\u{2500}\u{2500}") || output.contains("\u{2514}\u{2500}\u{2500}")
    );
}

#[test]
fn directory_tree_respects_max_depth() {
    let (dir, ctx) = setup();
    let sub = make_dir(dir.path(), "level1");
    let deep = make_dir(sub.path(), "level2");
    let _f = make_file(deep.path(), "deep.txt", b"deep");

    let output = directory_tree(&ctx, &path_string(dir.path()), 0).unwrap();
    assert!(output.contains("level1/"));
    assert!(!output.contains("level2"));
    assert!(!output.contains("deep.txt"));
}

#[test]
fn directory_tree_skips_hidden() {
    let (dir, ctx) = setup();
    let _h = make_dir(dir.path(), ".hidden");
    let _g = make_file(dir.path(), ".gitignore", b"target/");
    let _v = make_file(dir.path(), "visible.txt", b"visible");

    let output = directory_tree(&ctx, &path_string(dir.path()), 10).unwrap();
    assert!(output.contains("visible.txt"));
    assert!(!output.contains(".hidden"));
    assert!(!output.contains(".gitignore"));
}

#[test]
fn directory_tree_denied_outside() {
    let (_dir, ctx) = setup();
    let other = tempfile::TempDir::new().unwrap();
    let result = directory_tree(&ctx, &path_string(other.path()), 10);
    assert!(result.is_err());
    assert!(result.unwrap_err().contains("Access denied"));
}

#[test]
fn directory_tree_empty_dir() {
    let (dir, ctx) = setup();
    let output = directory_tree(&ctx, &path_string(dir.path()), 10).unwrap();
    assert!(output.ends_with("/\n"));
}

#[test]
fn directory_tree_truncates_large() {
    let (dir, ctx) = setup();
    let mut handles = Vec::new();
    for i in 0..1005 {
        handles.push(make_file(dir.path(), &format!("file{i:04}.txt"), b"x"));
    }

    let output = directory_tree(&ctx, &path_string(dir.path()), 10).unwrap();
    assert!(output.contains("truncated"));
    assert!(output.contains("search_files"));
    assert_eq!(output.matches("truncated").count(), 1);
}
