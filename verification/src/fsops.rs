//! Trusted wrappers around the operating-system calls that the library
//! needs.  Each wrapper makes exactly one call and converts its result to
//! plain values; everything the library concludes from them is stated in
//! their contracts.

use vstd::prelude::*;

verus! {

use crate::error::IoFailure;
use crate::paths::{is_absolute_path, is_plain_segment};
use std::io::ErrorKind;
use std::path::Path;
use std::time::UNIX_EPOCH;

/// Relies on std::path::Path::canonicalize: on success the result is the
/// canonical, absolute form of the path, with symbolic links resolved; on
/// Unix an absolute path starts with the separator.  What it resolves to
/// depends on the state of the disk, so only absoluteness is stated.  A
/// path that canonicalizes to non-Unicode text is reported as a failure.
#[verifier::external_body]
pub fn canonicalize_path(path: &str) -> (r: Result<String, IoFailure>)
    ensures
        r matches Ok(p) ==> is_absolute_path(p@),
{
    match Path::new(path).canonicalize() {
        Ok(p) => match p.into_os_string().into_string() {
            Ok(s) => Ok(s),
            Err(_) => {
                let message = "path is not valid Unicode".to_string();
                Err(IoFailure { permission_denied: false, message })
            },
        },
        Err(e) => Err(IoFailure {
            permission_denied: e.kind() == ErrorKind::PermissionDenied,
            message: e.to_string(),
        }),
    }
}

/// Relies on std::path::Path::exists: whether the path currently resolves
/// to an entity on disk.  The answer depends on the disk, so nothing is
/// stated of it.
#[verifier::external_body]
pub fn path_exists(path: &str) -> bool {
    Path::new(path).exists()
}

/// Relies on std::path::Path::is_file: whether the path currently resolves
/// to a regular file.
#[verifier::external_body]
pub fn path_is_file(path: &str) -> bool {
    Path::new(path).is_file()
}

/// Relies on std::path::Path::is_dir: whether the path currently resolves
/// to a directory.
#[verifier::external_body]
pub fn path_is_dir(path: &str) -> bool {
    Path::new(path).is_dir()
}

/// One directory entry, reduced to the plain values the library reads.
pub struct DirEntryInfo {
    pub name: String,
    pub is_dir: bool,
    pub is_file: bool,
    pub size: u64,
    pub modified_secs: Option<u64>,
}

/// Relies on std::path::Path::read_dir and the per-entry metadata calls:
/// hands back one record per directory entry, in whatever order the
/// operating system yields them, with `None` standing for an entry that
/// could not be read.  What comes back depends on the disk; the one stated
/// fact is that entry names are non-empty and hold no path separator,
/// which the operating system guarantees of directory entries.
#[verifier::external_body]
pub fn read_dir_entries(path: &str) -> (r: Result<Vec<Option<DirEntryInfo>>, IoFailure>)
    ensures
        r matches Ok(v) ==> forall|i: int|
            0 <= i < v@.len() ==> (#[trigger] v@[i] matches Some(e) ==> is_plain_segment(
                e.name@,
            )),
{
    let rd = match Path::new(path).read_dir() {
        Ok(rd) => rd,
        Err(e) => return Err(IoFailure {
            permission_denied: e.kind() == ErrorKind::PermissionDenied,
            message: e.to_string(),
        }),
    };
    Ok(rd.map(|ent| {
        let ent = ent.ok()?;
        let meta = ent.metadata().ok()?;
        let modified = meta.modified().ok().and_then(|t| t.duration_since(UNIX_EPOCH).ok());
        let name = ent.file_name().to_string_lossy().into_owned();
        Some(DirEntryInfo { name, is_dir: meta.is_dir(), is_file: meta.is_file(), size: meta.len(), modified_secs: modified.map(|d| d.as_secs()) })
    }).collect())
}

} // verus!
