//! Rendering of file metadata reports: entity type, size, MIME guess,
//! timestamps and permissions, from plain values the caller read off the
//! disk.

use vstd::prelude::*;

verus! {

use crate::util::{spec_format_date, spec_format_size, format_date, format_size};

/// The plain facts about a filesystem entity that the report reads.
pub struct FileMeta {
    pub is_file: bool,
    pub is_dir: bool,
    pub is_symlink: bool,
    pub size: u64,
    pub modified_secs: Option<u64>,
    pub created_secs: Option<u64>,
}

/// The MIME type guessed for a path, when its extension is known; the
/// guess is a function of the path alone.
pub uninterp spec fn mime_for_path(path: Seq<char>) -> Option<Seq<char>>;

/// Relies on mime_guess::from_path and MimeGuess::first: a pure lookup on
/// the path's extension.
#[verifier::external_body]
fn guess_mime(path: &str) -> (r: Option<String>)
    ensures
        r is Some <==> mime_for_path(path@) is Some,
        r matches Some(s) ==> mime_for_path(path@) matches Some(t) && s@ == t,
{
    mime_guess::from_path(std::path::Path::new(path)).first().map(|m| m.to_string())
}

/// The entity-type word for a metadata record.
pub open spec fn spec_file_type(meta: FileMeta) -> Seq<char> {
    if meta.is_file {
        ("file")@
    } else if meta.is_dir {
        ("directory")@
    } else if meta.is_symlink {
        ("symlink")@
    } else {
        ("other")@
    }
}

/// The MIME field of the report: the guess for a file (falling back to
/// the generic byte-stream type), and a placeholder otherwise.
pub open spec fn spec_mime_field(canonical: Seq<char>, meta: FileMeta) -> Seq<char> {
    if meta.is_file {
        match mime_for_path(canonical) {
            Some(m) => m,
            None => ("application/octet-stream")@,
        }
    } else {
        ("N/A")@
    }
}

/// A timestamp field: the rendered date, or a placeholder when the clock
/// value was unavailable.
pub open spec fn spec_date_field(secs: Option<u64>) -> Seq<char> {
    match secs {
        Some(s) => spec_format_date(s as int),
        None => ("unknown")@,
    }
}

/// The full metadata report for an entity.
pub open spec fn spec_file_info_report(
    canonical: Seq<char>,
    meta: FileMeta,
    permissions: Seq<char>,
) -> Seq<char> {
    ("Path: ")@ + canonical + ("\nType: ")@ + spec_file_type(meta) + ("\nSize: ")@
        + spec_format_size(meta.size as int) + ("\nMIME: ")@ + spec_mime_field(canonical, meta) + (
    "\nModified: ")@ + spec_date_field(meta.modified_secs) + ("\nCreated: ")@ + spec_date_field(
        meta.created_secs,
    ) + ("\nPermissions: ")@ + permissions
}

/// Renders a timestamp field.
fn date_field(secs: Option<u64>) -> (r: String)
    ensures
        r@ == spec_date_field(secs),
{
    match secs {
        Some(s) => format_date(s),
        None => String::from_str("unknown"),
    }
}

/// Renders the metadata report for an authorized canonical path, given
/// the plain metadata values and a pre-rendered permissions field.
pub fn file_info_report(canonical: &str, meta: &FileMeta, permissions: &str) -> (r: String)
    ensures
        r@ == spec_file_info_report(canonical@, *meta, permissions@),
{
    let file_type: &str = if meta.is_file {
        "file"
    } else if meta.is_dir {
        "directory"
    } else if meta.is_symlink {
        "symlink"
    } else {
        "other"
    };
    let mime: String = if meta.is_file {
        match guess_mime(canonical) {
            Some(m) => m,
            None => String::from_str("application/octet-stream"),
        }
    } else {
        String::from_str("N/A")
    };
    let r = String::from_str("Path: ").concat(canonical).concat("\nType: ").concat(
        file_type,
    ).concat("\nSize: ").concat(format_size(meta.size).as_str()).concat("\nMIME: ").concat(
        mime.as_str(),
    ).concat("\nModified: ").concat(date_field(meta.modified_secs).as_str()).concat(
        "\nCreated: ",
    ).concat(date_field(meta.created_secs).as_str()).concat("\nPermissions: ").concat(
        permissions,
    );
    proof {
        assert(r@ =~= spec_file_info_report(canonical@, *meta, permissions@));
    }
    r
}

} // verus!
