use ironbeard_mcp_filesystem::Config;
use std::io::Write;

fn make_config(dirs: Vec<String>) -> Config {
    Config {
        allowed_directories: dirs,
        allow_write: false,
        allow_destructive: false,
        max_read_size: 10_485_760,
        max_depth: 10,
    }
}

#[test]
fn validate_rejects_nonexistent_directory() {
    let config = make_config(vec!["/definitely/does/not/exist/abc123".to_string()]);
    let result = config.validate();
    assert!(result.is_err());
    assert!(result.unwrap_err().contains("Failed to resolve"));
}

#[test]
fn validate_rejects_file_as_directory() {
    let dir = tempfile::TempDir::new().unwrap();
    let mut f = tempfile::Builder::new()
        .prefix("not_a_dir.txt")
        .rand_bytes(0)
        .tempfile_in(dir.path())
        .unwrap();
    f.write_all(b"data").unwrap();
    f.flush().unwrap();
    let file_path = dir.path().join("not_a_dir.txt").to_str().unwrap().to_string();
    let config = make_config(vec![file_path]);
    let result = config.validate();
    assert!(result.is_err());
    assert!(result.unwrap_err().contains("not a directory"));
}

#[test]
fn validate_canonicalizes_directories() {
    let dir = tempfile::TempDir::new().unwrap();
    let expected = dir.path().canonicalize().unwrap().to_str().unwrap().to_string();
    let config = make_config(vec![dir.path().to_str().unwrap().to_string()]);
    let validated = config.validate().unwrap();
    assert_eq!(validated.allowed_directories[0], expected);
}

#[test]
fn allow_destructive_auto_enables_allow_write() {
    let dir = tempfile::TempDir::new().unwrap();
    let canon = dir.path().canonicalize().unwrap().to_str().unwrap().to_string();
    let config = Config {
        allowed_directories: vec![canon],
        allow_write: false,
        allow_destructive: true,
        max_read_size: 10_485_760,
        max_depth: 10,
    };
    let validated = config.validate().unwrap();
    assert!(validated.allow_write);
    assert!(validated.allow_destructive);
}
