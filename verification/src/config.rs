//! The server's startup configuration, and its validation: every allowed
//! directory must resolve to an existing directory, and destructive mode
//! implies write mode.

use vstd::prelude::*;

verus! {

use crate::fsops::{canonicalize_path, path_is_dir};
use crate::paths::is_absolute_path;

/// The two shapes of a configuration rejection for one directory: the
/// resolution failure with the system's detail text, or the
/// not-a-directory notice.
pub open spec fn spec_invalid_dir_message(m: Seq<char>, dir: Seq<char>) -> bool {
    ||| exists|detail: Seq<char>|
        m == ("Failed to resolve directory '")@ + dir + #[trigger] ((("': ")@ + detail))
    ||| m == ("'")@ + dir + ("' is not a directory")@
}

/// A configuration rejection names one of the given directories in one of
/// the two message shapes.
pub open spec fn spec_validate_error(dirs: Seq<String>, m: Seq<char>) -> bool {
    exists|i: int| 0 <= i < dirs.len() && #[trigger] spec_invalid_dir_message(m, dirs[i]@)
}

/// The configuration of a filesystem server: the sandbox roots and the
/// operation gates and ceilings.
#[derive(Debug)]
pub struct Config {
    /// Directories to allow access to (must exist).
    pub allowed_directories: Vec<String>,
    /// Enable write operations (create, edit, move, delete).
    pub allow_write: bool,
    /// Enable destructive operations (delete, move). Implies write mode.
    pub allow_destructive: bool,
    /// Maximum file size for read operations in bytes.
    pub max_read_size: usize,
    /// Maximum directory traversal depth.
    pub max_depth: usize,
}

impl Config {
    /// Validates and canonicalizes all allowed directories, and turns on
    /// write mode when destructive mode is on.  Returns a descriptive
    /// error string if any directory is invalid: the resolution failure
    /// or the not-a-directory notice, naming the offending directory.
    pub fn validate(self) -> (r: Result<Config, String>)
        ensures
            r matches Ok(c) ==> {
                &&& c.allow_write == (self.allow_write || self.allow_destructive)
                &&& c.allow_destructive == self.allow_destructive
                &&& c.max_read_size == self.max_read_size
                &&& c.max_depth == self.max_depth
                &&& c.allowed_directories@.len() == self.allowed_directories@.len()
                &&& forall|i: int|
                    0 <= i < c.allowed_directories@.len() ==> is_absolute_path(
                        #[trigger] c.allowed_directories@[i]@,
                    )
            },
            r matches Err(m) ==> spec_validate_error(self.allowed_directories@, m@),
    {
        let allow_write = self.allow_write || self.allow_destructive;
        let mut canonicalized: Vec<String> = Vec::new();
        let mut i: usize = 0;
        let dirs = self.allowed_directories;
        while i < dirs.len()
            invariant
                dirs@ == self.allowed_directories@,
                i <= dirs@.len(),
                canonicalized@.len() == i,
                forall|k: int|
                    0 <= k < canonicalized@.len() ==> is_absolute_path(
                        #[trigger] canonicalized@[k]@,
                    ),
            decreases dirs@.len() - i,
        {
            let dir = &dirs[i];
            match canonicalize_path(dir.as_str()) {
                Err(f) => {
                    let m = String::from_str("Failed to resolve directory '").concat(
                        dir.as_str(),
                    ).concat("': ").concat(f.message.as_str());
                    proof {
                        assert(m@ =~= ("Failed to resolve directory '")@ + dirs@[i as int]@ + ((
                        ("': ")@ + f.message@)));
                        assert(spec_invalid_dir_message(m@, dirs@[i as int]@));
                        assert(spec_validate_error(self.allowed_directories@, m@));
                    }
                    return Err(m);
                },
                Ok(canon) => {
                    if !path_is_dir(canon.as_str()) {
                        let m = String::from_str("'").concat(dir.as_str()).concat(
                            "' is not a directory",
                        );
                        proof {
                            assert(m@ =~= ("'")@ + dirs@[i as int]@ + (
                            "' is not a directory")@);
                            assert(spec_invalid_dir_message(m@, dirs@[i as int]@));
                            assert(spec_validate_error(self.allowed_directories@, m@));
                        }
                        return Err(m);
                    }
                    canonicalized.push(canon);
                },
            }
            i += 1;
        }
        Ok(
            Config {
                allowed_directories: canonicalized,
                allow_write,
                allow_destructive: self.allow_destructive,
                max_read_size: self.max_read_size,
                max_depth: self.max_depth,
            },
        )
    }
}

} // verus!
