//! Directory listing: entries rendered with type, name, size and
//! modification date, directories first, each group sorted, truncated at a
//! fixed ceiling with a single notice.

use vstd::prelude::*;

verus! {

use crate::error::io_error_message;
use crate::fsops::{read_dir_entries, DirEntryInfo};
use crate::order::{sort_strings, strings_sorted, views_sorted};
use crate::security::SecurityContext;
use crate::util::{dec_rep, spec_format_date, spec_format_size, format_date, format_size,
u64_to_string};
use vstd::multiset::Multiset;

broadcast use vstd::seq_lib::group_to_multiset_ensures, vstd::multiset::group_multiset_axioms;

/// The ceiling on entries shown by one directory listing.
pub const MAX_DIR_ENTRIES: usize = 1000;

/// The rendered line for a subdirectory.
pub open spec fn spec_dir_line(name: Seq<char>) -> Seq<char> {
    ("[DIR]  ")@ + name + ("/")@
}

/// The rendered line for a file.
pub open spec fn spec_file_line(e: DirEntryInfo) -> Seq<char> {
    ("[FILE] ")@ + e.name@ + (" (")@ + spec_format_size(e.size as int) + (", ")@ + (
    match e.modified_secs {
        Some(secs) => spec_format_date(secs as int),
        None => ("unknown")@,
    }) + (")")@
}

/// The multiset of directory lines for the readable entries.
pub open spec fn spec_dir_lines(entries: Seq<Option<DirEntryInfo>>) -> Multiset<Seq<char>>
    decreases entries.len(),
{
    if entries.len() == 0 {
        Multiset::empty()
    } else {
        let rest = spec_dir_lines(entries.drop_last());
        match entries.last() {
            Some(e) => if e.is_dir {
                rest.insert(spec_dir_line(e.name@))
            } else {
                rest
            },
            None => rest,
        }
    }
}

/// The multiset of file lines for the readable entries.
pub open spec fn spec_file_lines(entries: Seq<Option<DirEntryInfo>>) -> Multiset<Seq<char>>
    decreases entries.len(),
{
    if entries.len() == 0 {
        Multiset::empty()
    } else {
        let rest = spec_file_lines(entries.drop_last());
        match entries.last() {
            Some(e) => if !e.is_dir && e.is_file {
                rest.insert(spec_file_line(e))
            } else {
                rest
            },
            None => rest,
        }
    }
}

/// Renders the line for one subdirectory.
fn render_dir_line(name: &String) -> (r: String)
    ensures
        r@ == spec_dir_line(name@),
{
    String::from_str("[DIR]  ").concat(name.as_str()).concat("/")
}

/// Renders the line for one file.
fn render_file_line(e: &DirEntryInfo) -> (r: String)
    ensures
        r@ == spec_file_line(*e),
{
    let modified = match e.modified_secs {
        Some(secs) => format_date(secs),
        None => String::from_str("unknown"),
    };
    let r = String::from_str("[FILE] ").concat(e.name.as_str()).concat(" (").concat(
        format_size(e.size).as_str(),
    ).concat(", ").concat(modified.as_str()).concat(")");
    proof {
        assert(r@ =~= spec_file_line(*e));
    }
    r
}

/// Renders the readable entries as two sorted blocks of lines: the
/// directory lines and the file lines, each holding exactly one line per
/// corresponding entry.
pub fn listing_lines(entries: &Vec<Option<DirEntryInfo>>) -> (r: (Vec<String>, Vec<String>))
    ensures
        strings_sorted(r.0@),
        strings_sorted(r.1@),
        r.0@.map_values(|s: String| s@).to_multiset() == spec_dir_lines(entries@),
        r.1@.map_values(|s: String| s@).to_multiset() == spec_file_lines(entries@),
{
    let ghost viewfn = |s: String| s@;
    let mut dl: Vec<String> = Vec::new();
    let mut fl: Vec<String> = Vec::new();
    let mut j: usize = 0;
    proof {
        assert(entries@.subrange(0, 0) =~= Seq::<Option<DirEntryInfo>>::empty());
        assert(dl@.map_values(viewfn) =~= Seq::<Seq<char>>::empty());
        assert(fl@.map_values(viewfn) =~= Seq::<Seq<char>>::empty());
        assert(dl@.map_values(viewfn).to_multiset() =~= Multiset::<Seq<char>>::empty());
        assert(fl@.map_values(viewfn).to_multiset() =~= Multiset::<Seq<char>>::empty());
    }
    while j < entries.len()
        invariant
            j <= entries@.len(),
            viewfn == (|s: String| s@),
            dl@.map_values(viewfn).to_multiset() == spec_dir_lines(entries@.subrange(0, j as int)),
            fl@.map_values(viewfn).to_multiset() == spec_file_lines(entries@.subrange(0, j as int)),
        decreases entries@.len() - j,
    {
        let ghost before = entries@.subrange(0, j as int);
        let ghost after = entries@.subrange(0, j as int + 1);
        proof {
            assert(after.drop_last() =~= before);
            assert(after.last() == entries@[j as int]);
        }
        match &entries[j] {
            None => {},
            Some(e) => {
                if e.is_dir {
                    let ghost prev = dl@;
                    dl.push(render_dir_line(&e.name));
                    proof {
                        assert(dl@.map_values(viewfn) =~= prev.map_values(viewfn).push(
                            spec_dir_line(e.name@),
                        ));
                    }
                } else if e.is_file {
                    let ghost prev = fl@;
                    fl.push(render_file_line(e));
                    proof {
                        assert(fl@.map_values(viewfn) =~= prev.map_values(viewfn).push(
                            spec_file_line(*e),
                        ));
                    }
                }
            },
        }
        j += 1;
    }
    proof {
        assert(entries@.subrange(0, entries@.len() as int) =~= entries@);
    }
    let dls = sort_strings(dl);
    let fls = sort_strings(fl);
    (dls, fls)
}

/// Lines joined by single newlines, with no trailing newline.
pub open spec fn join_newline(lines: Seq<Seq<char>>) -> Seq<char>
    decreases lines.len(),
{
    if lines.len() == 0 {
        Seq::empty()
    } else if lines.len() == 1 {
        lines[0]
    } else {
        join_newline(lines.drop_last()) + seq!['\n'] + lines.last()
    }
}

/// Joins rendered lines with newlines.
pub fn join_lines(lines: &Vec<String>) -> (r: String)
    ensures
        r@ == join_newline(lines@.map_values(|s: String| s@)),
{
    let ghost viewfn = |s: String| s@;
    let mut r = String::new();
    let mut i: usize = 0;
    proof {
        assert(lines@.subrange(0, 0).map_values(viewfn) =~= Seq::<Seq<char>>::empty());
    }
    while i < lines.len()
        invariant
            i <= lines@.len(),
            viewfn == (|s: String| s@),
            r@ == join_newline(lines@.subrange(0, i as int).map_values(viewfn)),
        decreases lines@.len() - i,
    {
        proof {
            reveal_strlit("\n");
        }
        let ghost before = lines@.subrange(0, i as int).map_values(viewfn);
        if i > 0 {
            r.append("\n");
        }
        r.append(lines[i].as_str());
        proof {
            let after = lines@.subrange(0, i as int + 1).map_values(viewfn);
            assert(after.drop_last() =~= before);
            assert(after.last() == lines@[i as int]@);
            if i == 0 {
                assert(r@ =~= join_newline(after));
            } else {
                assert(r@ =~= join_newline(after));
            }
        }
        i += 1;
    }
    proof {
        assert(lines@.subrange(0, lines@.len() as int) =~= lines@);
    }
    r
}

/// The truncation notice appended to an over-long listing.
pub open spec fn spec_listing_notice(total: int) -> Seq<char> {
    ("\n(Showing first 1000 of ")@ + dec_rep(total) + (
    " entries. Use search_files to find specific files.)")@
}

/// The final listing text: a placeholder for an empty directory, the
/// joined lines when they fit, and otherwise exactly the first
/// `MAX_DIR_ENTRIES` lines followed by one truncation notice.
pub open spec fn spec_assemble_listing(lines: Seq<Seq<char>>) -> Seq<char> {
    if lines.len() == 0 {
        ("(empty directory)")@
    } else if lines.len() <= MAX_DIR_ENTRIES {
        join_newline(lines)
    } else {
        join_newline(lines.subrange(0, MAX_DIR_ENTRIES as int).push(spec_listing_notice(
            lines.len() as int,
        )))
    }
}

/// Assembles the final listing text, truncating at the ceiling.
pub fn assemble_listing(lines: Vec<String>) -> (r: String)
    ensures
        r@ == spec_assemble_listing(lines@.map_values(|s: String| s@)),
{
    let ghost viewfn = |s: String| s@;
    let ghost orig = lines@.map_values(viewfn);
    let total = lines.len();
    if total == 0 {
        return String::from_str("(empty directory)");
    }
    if total <= MAX_DIR_ENTRIES {
        return join_lines(&lines);
    }
    let mut lines = lines;
    lines.truncate(MAX_DIR_ENTRIES);
    proof {
        assert(lines@.map_values(viewfn) =~= orig.subrange(0, MAX_DIR_ENTRIES as int));
    }
    let notice = String::from_str("\n(Showing first 1000 of ").concat(
        u64_to_string(total as u64).as_str(),
    ).concat(" entries. Use search_files to find specific files.)");
    proof {
        assert(notice@ =~= spec_listing_notice(orig.len() as int));
    }
    let ghost prev = lines@;
    lines.push(notice);
    proof {
        assert(lines@.map_values(viewfn) =~= prev.map_values(viewfn).push(notice@));
        assert(lines@.map_values(viewfn) =~= orig.subrange(0, MAX_DIR_ENTRIES as int).push(
            spec_listing_notice(orig.len() as int),
        ));
    }
    join_lines(&lines)
}

/// What a well-formed listing text is: the assembled form of a sorted
/// block of directory lines followed by a sorted block of file lines,
/// holding exactly one rendered line per readable entry of some listing.
pub open spec fn is_listing_report_of(
    s: Seq<char>,
    entries: Seq<Option<DirEntryInfo>>,
    dl: Seq<Seq<char>>,
    fl: Seq<Seq<char>>,
) -> bool {
    &&& views_sorted(dl)
    &&& views_sorted(fl)
    &&& dl.to_multiset() == spec_dir_lines(entries)
    &&& fl.to_multiset() == spec_file_lines(entries)
    &&& s == spec_assemble_listing(dl + fl)
}

/// A successful listing outcome: the assembled report of some listing's
/// rendered lines.
pub open spec fn spec_listing_success(s: Seq<char>) -> bool {
    exists|entries: Seq<Option<DirEntryInfo>>, dl: Seq<Seq<char>>, fl: Seq<Seq<char>>|
        #[trigger] is_listing_report_of(s, entries, dl, fl)
}

/// Lists the contents of an authorized directory, sorted with directories
/// first, truncated at the ceiling.
///
/// Every success is the assembled report of the directory's readable
/// entries: its sorted directory lines, then its sorted file lines.
pub fn list_directory(ctx: &SecurityContext, path: &str) -> (r: Result<String, String>)
    ensures
        r matches Ok(s) ==> spec_listing_success(s@),
{
    let ghost viewfn = |s: String| s@;
    let canonical = match ctx.validate_directory(path) {
        Ok(c) => c,
        Err(e) => {
            return Err(e.message());
        },
    };
    let entries = match read_dir_entries(canonical.as_str()) {
        Ok(l) => l,
        Err(f) => {
            return Err(io_error_message(&f, path));
        },
    };
    let (dls, fls) = listing_lines(&entries);
    let ghost dl = dls@.map_values(viewfn);
    let ghost fl = fls@.map_values(viewfn);
    let mut lines = dls;
    let mut fls = fls;
    lines.append(&mut fls);
    proof {
        assert(lines@.map_values(viewfn) =~= dl + fl);
    }
    let report = assemble_listing(lines);
    proof {
        assert(is_listing_report_of(report@, entries@, dl, fl));
        assert(spec_listing_success(report@));
    }
    Ok(report)
}

/// Formats the sandbox roots as a newline-separated string of canonical
/// paths.
pub fn format_allowed_directories(ctx: &SecurityContext) -> (r: String)
    ensures
        r@ == join_newline(ctx.roots()),
{
    join_lines(ctx.allowed_directories())
}

} // verus!
