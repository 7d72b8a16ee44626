use ironbeard_mcp_filesystem::security::ResolutionIntent;
use ironbeard_mcp_filesystem::{FsError, SecurityContext};
use std::io::Write;

fn canon_string(p: &std::path::Path) -> String {
    p.canonicalize().unwrap().to_str().unwrap().to_string()
}

fn path_string(p: &std::path::Path) -> String {
    p.to_str().unwrap().to_string()
}

fn setup() -> (tempfile::TempDir, SecurityContext) {
    let dir = tempfile::TempDir::new().unwrap();
    let canonical = canon_string(dir.path());
    let ctx = SecurityContext::new(vec![canonical]);
    (dir, ctx)
}

fn make_file(dir: &std::path::Path, name: &str, content: &[u8]) -> tempfile::NamedTempFile {
    let mut f = tempfile::Builder::new().prefix(name).rand_bytes(0).tempfile_in(dir).unwrap();
    f.write_all(content).unwrap();
    f.flush().unwrap();
    f
}

fn make_dir(parent: &std::path::Path, name: &str) -> tempfile::TempDir {
    tempfile::Builder::new().prefix(name).rand_bytes(0).tempdir_in(parent).unwrap()
}

#[test]
fn allows_path_inside_allowed_dir() {
    let (dir, ctx) = setup();
    let _f = make_file(dir.path(), "hello.txt", b"hi");
    let result = ctx.validate_path(&path_string(&dir.path().join("hello.txt")));
    assert!(result.is_ok());
}

#[test]
fn denies_path_outside_allowed_dir() {
    let (_dir, ctx) = setup();
    let outside = tempfile::TempDir::new().unwrap();
    let _f = make_file(outside.path(), "ironbeard_test_outside.tmp", b"x");
    let result = ctx.validate_path(&path_string(
        &outside.path().join("ironbeard_test_outside.tmp"),
    ));
    assert!(matches!(result, Err(FsError::PathDenied { .. })));
}

#[test]
fn denies_dotdot_traversal_escaping_allowed_dir() {
    let (dir, ctx) = setup();
    let _sub = make_dir(dir.path(), "sub");
    let escape_path = dir.path().join("sub").join("..").join("..").join("..");
    let result = ctx.validate_path(&path_string(&escape_path));
    assert!(matches!(result, Err(FsError::PathDenied { .. })));
}

#[test]
fn validate_path_exists_succeeds_for_existing() {
    let (dir, ctx) = setup();
    let _f = make_file(dir.path(), "exists.txt", b"data");
    assert!(ctx.validate_path_exists(&path_string(&dir.path().join("exists.txt"))).is_ok());
}

#[test]
fn validate_path_exists_fails_for_missing() {
    let (dir, ctx) = setup();
    let result = ctx.validate_path_exists(&path_string(&dir.path().join("nonexistent.txt")));
    assert!(matches!(result, Err(FsError::NotFound { .. })));
}

#[test]
fn validate_file_succeeds_for_file() {
    let (dir, ctx) = setup();
    let _f = make_file(dir.path(), "file.txt", b"data");
    assert!(ctx.validate_file(&path_string(&dir.path().join("file.txt"))).is_ok());
}

#[test]
fn validate_file_fails_for_directory() {
    let (dir, ctx) = setup();
    let _sub = make_dir(dir.path(), "subdir");
    let result = ctx.validate_file(&path_string(&dir.path().join("subdir")));
    assert!(matches!(result, Err(FsError::NotAFile { .. })));
}

#[test]
fn validate_directory_succeeds_for_dir() {
    let (dir, ctx) = setup();
    let _sub = make_dir(dir.path(), "subdir");
    assert!(ctx.validate_directory(&path_string(&dir.path().join("subdir"))).is_ok());
}

#[test]
fn validate_directory_fails_for_file() {
    let (dir, ctx) = setup();
    let _f = make_file(dir.path(), "file.txt", b"data");
    let result = ctx.validate_directory(&path_string(&dir.path().join("file.txt")));
    assert!(matches!(result, Err(FsError::NotADirectory { .. })));
}

#[test]
fn validate_path_works_for_nonexistent_file_in_allowed_dir() {
    let (dir, ctx) = setup();
    let result = ctx.validate_path(&path_string(&dir.path().join("new_file.txt")));
    assert!(result.is_ok());
}

#[test]
fn validate_creatable_path_single_new_dir() {
    let (dir, ctx) = setup();
    let result = ctx.validate_creatable_path(&path_string(&dir.path().join("newdir")));
    assert!(result.is_ok());
}

#[test]
fn validate_creatable_path_deeply_nested() {
    let (dir, ctx) = setup();
    let result =
        ctx.validate_creatable_path(&path_string(&dir.path().join("a").join("b").join("c")));
    assert!(result.is_ok());
    let canon = result.unwrap();
    assert!(canon.ends_with("a/b/c"));
}

#[test]
fn validate_creatable_path_rejects_dotdot_in_tail() {
    let (dir, ctx) = setup();
    let sneaky = dir.path().join("a").join("..").join("escape");
    let result = ctx.validate_creatable_path(&path_string(&sneaky));
    assert!(matches!(result, Err(FsError::PathDenied { .. })));
}

#[test]
fn validate_creatable_path_rejects_outside_allowed() {
    let (_dir, ctx) = setup();
    let other = tempfile::TempDir::new().unwrap();
    let result = ctx.validate_creatable_path(&path_string(&other.path().join("newdir")));
    assert!(matches!(result, Err(FsError::PathDenied { .. })));
}

#[test]
fn validate_creatable_path_existing_dir_ok() {
    let (dir, ctx) = setup();
    let _sub = make_dir(dir.path(), "existing");
    let result = ctx.validate_creatable_path(&path_string(&dir.path().join("existing")));
    assert!(result.is_ok());
}

#[test]
fn trailing_slash_normalized() {
    let (dir, ctx) = setup();
    let _sub = make_dir(dir.path(), "subdir");
    let without = path_string(&dir.path().join("subdir"));
    let with = format!("{}/", without);

    let with_slash = ctx.validate_path(&with);
    let without_slash = ctx.validate_path(&without);

    assert!(with_slash.is_ok());
    assert!(without_slash.is_ok());
    assert_eq!(with_slash.unwrap(), without_slash.unwrap());
}

#[test]
fn resolution_examples() {
    let (dir, ctx) = setup();
    let sub = make_dir(dir.path(), "a");
    let _f = make_file(sub.path(), "b.txt", b"data");

    // An existing contained file resolves to its canonical form.
    let ok = ctx.resolve(
        &path_string(&dir.path().join("a").join("b.txt")),
        ResolutionIntent::MustBeFile,
    );
    assert_eq!(ok.unwrap(), canon_string(&dir.path().join("a").join("b.txt")));

    // A traversal that escapes to an existing outside file is denied.
    let outside = tempfile::TempDir::new().unwrap();
    let _secret = make_file(outside.path(), "secret.txt", b"secret");
    let outside_name = outside.path().file_name().unwrap().to_str().unwrap().to_string();
    let escape = format!(
        "{}/../{}/secret.txt",
        canon_string(dir.path()),
        outside_name,
    );
    let denied = ctx.resolve(&escape, ResolutionIntent::MustExist);
    assert!(matches!(denied, Err(FsError::PathDenied { .. })));

    // A write destination whose parent is missing is not found.
    let missing_parent = ctx.resolve(
        &path_string(&dir.path().join("a").join("c").join("d.txt")),
        ResolutionIntent::MayNotExist,
    );
    assert!(matches!(missing_parent, Err(FsError::NotFound { .. })));

    // The same chain is fine for recursive creation: the nearest existing
    // ancestor is validated and the tail re-attached.
    let creatable = ctx.resolve(
        &path_string(&dir.path().join("a").join("c").join("d")),
        ResolutionIntent::Creatable,
    );
    assert!(creatable.unwrap().ends_with("a/c/d"));
}

#[test]
fn resolve_idempotent() {
    let (dir, ctx) = setup();
    let _f = make_file(dir.path(), "x.txt", b"x");
    let first = ctx.resolve(&path_string(&dir.path().join("x.txt")), ResolutionIntent::MustExist);
    let first = first.unwrap();
    let second = ctx.resolve(&first, ResolutionIntent::MustExist);
    assert_eq!(second.unwrap(), first);

    let outside = tempfile::TempDir::new().unwrap();
    let _s = make_file(outside.path(), "s.txt", b"s");
    let p = path_string(&outside.path().join("s.txt"));
    assert!(ctx.resolve(&p, ResolutionIntent::MustExist).is_err());
    assert!(ctx.resolve(&p, ResolutionIntent::MustExist).is_err());
}
