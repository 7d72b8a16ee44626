//! Bounded directory-tree rendering: a depth-first walk that lists
//! directories before files, skips hidden entries, never descends past the
//! configured depth, and stops at a fixed ceiling of emitted entries with a
//! single truncation notice.

use vstd::prelude::*;

verus! {

use crate::error::IoFailure;
use crate::fsops::{read_dir_entries, DirEntryInfo};
use crate::order::{entries_sorted, sort_entries_by_name};
use crate::paths::join_path;
use crate::security::SecurityContext;
use crate::util::spec_format_size;
use vstd::multiset::Multiset;

broadcast use vstd::seq_lib::group_to_multiset_ensures, vstd::multiset::group_multiset_axioms;

/// The ceiling on entries emitted by one tree rendering.
pub const MAX_TREE_ENTRIES: usize = 1000;

/// One rendered line of a directory tree: either an entry at some depth of
/// the walk, or the single truncation notice.
pub struct TreeLine {
    pub depth: usize,
    pub truncation: bool,
    pub text: String,
}

/// How many of the lines are entries (not truncation notices).
pub open spec fn entry_line_count(lines: Seq<TreeLine>) -> int
    decreases lines.len(),
{
    if lines.len() == 0 {
        0
    } else {
        entry_line_count(lines.drop_last()) + (if lines.last().truncation {
            0int
        } else {
            1int
        })
    }
}

/// How many of the lines are truncation notices.
pub open spec fn trunc_line_count(lines: Seq<TreeLine>) -> int
    decreases lines.len(),
{
    if lines.len() == 0 {
        0
    } else {
        trunc_line_count(lines.drop_last()) + (if lines.last().truncation {
            1int
        } else {
            0int
        })
    }
}

/// Both counts are additive over concatenation.
pub proof fn lemma_line_counts_concat(a: Seq<TreeLine>, b: Seq<TreeLine>)
    ensures
        entry_line_count(a + b) == entry_line_count(a) + entry_line_count(b),
        trunc_line_count(a + b) == trunc_line_count(a) + trunc_line_count(b),
    decreases b.len(),
{
    if b.len() == 0 {
        assert(a + b =~= a);
    } else {
        assert((a + b).drop_last() =~= a + b.drop_last());
        assert((a + b).last() == b.last());
        lemma_line_counts_concat(a, b.drop_last());
    }
}

/// Whether the name marks a hidden entry.
pub open spec fn spec_hidden_name(name: Seq<char>) -> bool {
    name.len() > 0 && name[0] == '.'
}

/// Whether the name marks a hidden entry.
fn is_hidden_name(name: &str) -> (b: bool)
    ensures
        b == spec_hidden_name(name@),
{
    if name.unicode_len() == 0 {
        false
    } else {
        name.get_char(0) == '.'
    }
}

/// The readable, non-hidden directories of a listing.
pub open spec fn spec_visible_dirs(entries: Seq<Option<DirEntryInfo>>) -> Multiset<DirEntryInfo>
    decreases entries.len(),
{
    if entries.len() == 0 {
        Multiset::empty()
    } else {
        let rest = spec_visible_dirs(entries.drop_last());
        match entries.last() {
            Some(e) => if !spec_hidden_name(e.name@) && e.is_dir {
                rest.insert(e)
            } else {
                rest
            },
            None => rest,
        }
    }
}

/// The readable, non-hidden regular files of a listing.
pub open spec fn spec_visible_files(entries: Seq<Option<DirEntryInfo>>) -> Multiset<DirEntryInfo>
    decreases entries.len(),
{
    if entries.len() == 0 {
        Multiset::empty()
    } else {
        let rest = spec_visible_files(entries.drop_last());
        match entries.last() {
            Some(e) => if !spec_hidden_name(e.name@) && !e.is_dir && e.is_file {
                rest.insert(e)
            } else {
                rest
            },
            None => rest,
        }
    }
}

/// Every member of the visible-directory multiset is a non-hidden
/// directory.
proof fn lemma_visible_dirs_members(entries: Seq<Option<DirEntryInfo>>, e: DirEntryInfo)
    requires
        spec_visible_dirs(entries).contains(e),
    ensures
        e.is_dir,
        !spec_hidden_name(e.name@),
    decreases entries.len(),
{
    if entries.len() == 0 {
    } else {
        let rest = spec_visible_dirs(entries.drop_last());
        match entries.last() {
            Some(l) => {
                if !spec_hidden_name(l.name@) && l.is_dir {
                    if e == l {
                    } else {
                        assert(rest.contains(e));
                        lemma_visible_dirs_members(entries.drop_last(), e);
                    }
                } else {
                    lemma_visible_dirs_members(entries.drop_last(), e);
                }
            },
            None => {
                lemma_visible_dirs_members(entries.drop_last(), e);
            },
        }
    }
}

/// Every member of the visible-file multiset is a non-hidden regular
/// file.
proof fn lemma_visible_files_members(entries: Seq<Option<DirEntryInfo>>, e: DirEntryInfo)
    requires
        spec_visible_files(entries).contains(e),
    ensures
        e.is_file,
        !spec_hidden_name(e.name@),
    decreases entries.len(),
{
    if entries.len() == 0 {
    } else {
        let rest = spec_visible_files(entries.drop_last());
        match entries.last() {
            Some(l) => {
                if !spec_hidden_name(l.name@) && !l.is_dir && l.is_file {
                    if e == l {
                    } else {
                        assert(rest.contains(e));
                        lemma_visible_files_members(entries.drop_last(), e);
                    }
                } else {
                    lemma_visible_files_members(entries.drop_last(), e);
                }
            },
            None => {
                lemma_visible_files_members(entries.drop_last(), e);
            },
        }
    }
}

/// Splits a listing into its readable, non-hidden directories and regular
/// files, exactly: the two sides hold the visible-directory and
/// visible-file multisets of the listing; unreadable entries, hidden
/// entries and entries of other types are dropped.
pub fn partition_entries(list: Vec<Option<DirEntryInfo>>) -> (r: (Vec<DirEntryInfo>, Vec<DirEntryInfo>))
    ensures
        r.0@.to_multiset() == spec_visible_dirs(list@),
        r.1@.to_multiset() == spec_visible_files(list@),
        r.0@.len() + r.1@.len() <= list@.len(),
{
    let ghost n = list@.len();
    let ghost whole = list@;
    let mut rest = list;
    let mut dirs: Vec<DirEntryInfo> = Vec::new();
    let mut files: Vec<DirEntryInfo> = Vec::new();
    proof {
        assert(dirs@.to_multiset() =~= Multiset::<DirEntryInfo>::empty());
        assert(files@.to_multiset() =~= Multiset::<DirEntryInfo>::empty());
        assert(Multiset::<DirEntryInfo>::empty().add(spec_visible_dirs(rest@))
            =~= spec_visible_dirs(whole));
        assert(Multiset::<DirEntryInfo>::empty().add(spec_visible_files(rest@))
            =~= spec_visible_files(whole));
    }
    while rest.len() > 0
        invariant
            whole == list@,
            dirs@.len() + files@.len() + rest@.len() <= n,
            n == whole.len(),
            dirs@.to_multiset().add(spec_visible_dirs(rest@)) == spec_visible_dirs(whole),
            files@.to_multiset().add(spec_visible_files(rest@)) == spec_visible_files(whole),
        decreases rest@.len(),
    {
        let ghost prev = rest@;
        match rest.pop() {
            None => {},
            Some(None) => {
                proof {
                    assert(prev.drop_last() =~= rest@);
                }
            },
            Some(Some(e)) => {
                proof {
                    assert(prev.drop_last() =~= rest@);
                    assert(prev.last() == Some(e));
                }
                if !is_hidden_name(e.name.as_str()) {
                    if e.is_dir {
                        let ghost dprev = dirs@;
                        dirs.push(e);
                        proof {
                            assert(dirs@.to_multiset() =~= dprev.to_multiset().insert(e));
                            assert(dirs@.to_multiset().add(spec_visible_dirs(rest@))
                                =~= dprev.to_multiset().add(spec_visible_dirs(prev)));
                        }
                    } else if e.is_file {
                        let ghost fprev = files@;
                        files.push(e);
                        proof {
                            assert(files@.to_multiset() =~= fprev.to_multiset().insert(e));
                            assert(files@.to_multiset().add(spec_visible_files(rest@))
                                =~= fprev.to_multiset().add(spec_visible_files(prev)));
                        }
                    }
                }
            },
        }
    }
    proof {
        assert(spec_visible_dirs(rest@) =~= Multiset::<DirEntryInfo>::empty());
        assert(spec_visible_files(rest@) =~= Multiset::<DirEntryInfo>::empty());
        assert(dirs@.to_multiset() =~= spec_visible_dirs(whole));
        assert(files@.to_multiset() =~= spec_visible_files(whole));
    }
    (dirs, files)
}

/// The connector that introduces an entry line.
pub open spec fn spec_connector(is_last: bool) -> Seq<char> {
    if is_last {
        ("\u{2514}\u{2500}\u{2500} ")@
    } else {
        ("\u{251c}\u{2500}\u{2500} ")@
    }
}

/// The rendered line for a subdirectory of the tree.
pub open spec fn spec_tree_dir_line(prefix: Seq<char>, is_last: bool, name: Seq<char>) -> Seq<
    char,
> {
    prefix + spec_connector(is_last) + name + ("/")@
}

/// The rendered line for a file of the tree.
pub open spec fn spec_tree_file_line(
    prefix: Seq<char>,
    is_last: bool,
    name: Seq<char>,
    size: int,
) -> Seq<char> {
    prefix + spec_connector(is_last) + name + (" (")@ + spec_format_size(size) + (")")@
}

/// The entry lines one level owes under a prefix: its directories in
/// order, then its files in order, the very last entry introduced by the
/// closing connector.
pub open spec fn spec_level_texts(
    prefix: Seq<char>,
    dirs: Seq<DirEntryInfo>,
    files: Seq<DirEntryInfo>,
) -> Seq<Seq<char>> {
    let total = dirs.len() + files.len();
    Seq::new(dirs.len(), |i: int| spec_tree_dir_line(prefix, i == total - 1, dirs[i].name@))
        + Seq::new(
        files.len(),
        |i: int|
            spec_tree_file_line(
                prefix,
                dirs.len() + i == total - 1,
                files[i].name@,
                files[i].size as int,
            ),
    )
}

/// The texts of the entry lines sitting at exactly the given depth.
pub open spec fn lines_at_depth(lines: Seq<TreeLine>, d: int) -> Seq<Seq<char>>
    decreases lines.len(),
{
    if lines.len() == 0 {
        Seq::empty()
    } else {
        let rest = lines_at_depth(lines.drop_last(), d);
        if !lines.last().truncation && lines.last().depth == d {
            rest.push(lines.last().text@)
        } else {
            rest
        }
    }
}

/// Depth selection is additive over concatenation.
proof fn lemma_lines_at_depth_concat(a: Seq<TreeLine>, b: Seq<TreeLine>, d: int)
    ensures
        lines_at_depth(a + b, d) == lines_at_depth(a, d) + lines_at_depth(b, d),
    decreases b.len(),
{
    if b.len() == 0 {
        assert(a + b =~= a);
        assert(lines_at_depth(a, d) + lines_at_depth(b, d) =~= lines_at_depth(a, d));
    } else {
        assert((a + b).drop_last() =~= a + b.drop_last());
        assert((a + b).last() == b.last());
        lemma_lines_at_depth_concat(a, b.drop_last(), d);
        if !b.last().truncation && b.last().depth == d {
            assert(lines_at_depth(a, d) + lines_at_depth(b.drop_last(), d).push(b.last().text@)
                =~= (lines_at_depth(a, d) + lines_at_depth(b.drop_last(), d)).push(
                b.last().text@,
            ));
        }
    }
}

/// A stretch of lines that all sit deeper contributes nothing at this
/// depth.
proof fn lemma_lines_at_depth_none(s: Seq<TreeLine>, d: int)
    requires
        forall|i: int| 0 <= i < s.len() && !(#[trigger] s[i]).truncation ==> s[i].depth > d,
    ensures
        lines_at_depth(s, d) == Seq::<Seq<char>>::empty(),
    decreases s.len(),
{
    if s.len() > 0 {
        assert(forall|i: int|
            0 <= i < s.drop_last().len() && !(#[trigger] s.drop_last()[i]).truncation
                ==> s.drop_last()[i].depth > d);
        lemma_lines_at_depth_none(s.drop_last(), d);
    }
}

/// One level of the walk rendered faithfully: the lines at this depth are
/// exactly the level texts of a pair of name-sorted sequences of visible
/// directories and visible files.
pub open spec fn level_rendered(
    lines: Seq<TreeLine>,
    prefix: Seq<char>,
    d: int,
    dirs: Seq<DirEntryInfo>,
    files: Seq<DirEntryInfo>,
) -> bool {
    &&& entries_sorted(dirs)
    &&& entries_sorted(files)
    &&& forall|i: int|
        0 <= i < dirs.len() ==> (#[trigger] dirs[i]).is_dir && !spec_hidden_name(dirs[i].name@)
    &&& forall|i: int|
        0 <= i < files.len() ==> (#[trigger] files[i]).is_file && !spec_hidden_name(
            files[i].name@,
        )
    &&& lines_at_depth(lines, d) == spec_level_texts(prefix, dirs, files)
}

/// A stretch of lines renders some level: name-sorted visible directories
/// first, then name-sorted visible files, at exactly this depth.
pub open spec fn spec_level_rendering(lines: Seq<TreeLine>, prefix: Seq<char>, d: int) -> bool {
    exists|dirs: Seq<DirEntryInfo>, files: Seq<DirEntryInfo>| #[trigger] level_rendered(
        lines,
        prefix,
        d,
        dirs,
        files,
    )
}

/// Walks one directory and its subtree, appending rendered lines.
///
/// The walk never emits an entry deeper than `max_depth`, never lets the
/// running entry count pass `MAX_TREE_ENTRIES`, and appends exactly one
/// truncation notice exactly when it stops early (result `Ok(false)`), in
/// which case the ceiling was reached exactly.
pub fn build_tree(
    dir: &str,
    prefix: &str,
    max_depth: usize,
    depth: usize,
    count: &mut usize,
    out: &mut Vec<TreeLine>,
) -> (r: Result<bool, IoFailure>)
    requires
        *old(count) <= MAX_TREE_ENTRIES,
        depth <= max_depth,
    ensures
        old(out)@.is_prefix_of(final(out)@),
        forall|i: int|
            #![trigger final(out)@[i]]
            old(out)@.len() <= i < final(out)@.len() && !final(out)@[i].truncation ==> depth
                <= final(out)@[i].depth <= max_depth,
        *final(count) - *old(count) == entry_line_count(
            final(out)@.skip(old(out)@.len() as int),
        ),
        *final(count) <= MAX_TREE_ENTRIES,
        trunc_line_count(final(out)@.skip(old(out)@.len() as int)) == (
        if r matches Ok(false) {
            1int
        } else {
            0int
        }),
        r matches Ok(false) ==> *final(count) == MAX_TREE_ENTRIES && final(out)@.len() > 0
            && final(out)@.last().truncation,
        r matches Ok(true) ==> spec_level_rendering(
            final(out)@.skip(old(out)@.len() as int),
            prefix@,
            depth as int,
        ),
    decreases max_depth - depth,
{
    let ghost len0 = out@.len();
    let ghost c0 = *count;
    proof {
        assert(out@.skip(len0 as int) =~= Seq::<TreeLine>::empty());
    }
    let list = match read_dir_entries(dir) {
        Ok(l) => l,
        Err(f) => {
            return Err(f);
        },
    };
    proof {
        vstd::std_specs::vec::axiom_spec_len(&list);
    }
    let (dirs0, files0) = partition_entries(list);
    let dirs = sort_entries_by_name(dirs0);
    let files = sort_entries_by_name(files0);
    proof {
        assert forall|i: int| 0 <= i < dirs@.len() implies (#[trigger] dirs@[i]).is_dir
            && !spec_hidden_name(dirs@[i].name@) by {
            assert(dirs@.contains(dirs@[i]));
            assert(dirs@.to_multiset().count(dirs@[i]) > 0);
            lemma_visible_dirs_members(list@, dirs@[i]);
        }
        assert forall|i: int| 0 <= i < files@.len() implies (#[trigger] files@[i]).is_file
            && !spec_hidden_name(files@[i].name@) by {
            assert(files@.contains(files@[i]));
            assert(files@.to_multiset().count(files@[i]) > 0);
            lemma_visible_files_members(list@, files@[i]);
        }
    }
    let total = dirs.len() + files.len();
    if total == 0 {
        proof {
            assert(out@.skip(len0 as int) =~= Seq::<TreeLine>::empty());
            assert(lines_at_depth(out@.skip(len0 as int), depth as int) =~= Seq::<
                Seq<char>,
            >::empty());
            assert(spec_level_texts(prefix@, dirs@, files@) =~= Seq::<Seq<char>>::empty());
            assert(level_rendered(
                out@.skip(len0 as int),
                prefix@,
                depth as int,
                dirs@,
                files@,
            ));
            assert(spec_level_rendering(out@.skip(len0 as int), prefix@, depth as int));
        }
        return Ok(true);
    }
    let mut index: usize = 0;
    let mut di: usize = 0;
    proof {
        assert(lines_at_depth(out@.skip(len0 as int), depth as int) =~= Seq::<
            Seq<char>,
        >::empty());
        assert(spec_level_texts(prefix@, dirs@, files@).subrange(0, 0) =~= Seq::<
            Seq<char>,
        >::empty());
    }
    while di < dirs.len()
        invariant
            len0 == old(out)@.len(),
            c0 == *old(count),
            depth <= max_depth,
            di <= dirs@.len(),
            index == di,
            total == dirs@.len() + files@.len(),
            total <= usize::MAX,
            entries_sorted(dirs@),
            entries_sorted(files@),
            forall|i: int|
                0 <= i < dirs@.len() ==> (#[trigger] dirs@[i]).is_dir && !spec_hidden_name(
                    dirs@[i].name@,
                ),
            forall|i: int|
                0 <= i < files@.len() ==> (#[trigger] files@[i]).is_file && !spec_hidden_name(
                    files@[i].name@,
                ),
            index <= total,
            lines_at_depth(out@.skip(len0 as int), depth as int) == spec_level_texts(
                prefix@,
                dirs@,
                files@,
            ).subrange(0, index as int),
            len0 <= out@.len(),
            old(out)@.is_prefix_of(out@),
            forall|i: int|
                #![trigger out@[i]]
                len0 <= i < out@.len() && !out@[i].truncation ==> depth <= out@[i].depth
                    <= max_depth,
            *count - c0 == entry_line_count(out@.skip(len0 as int)),
            *count <= MAX_TREE_ENTRIES,
            trunc_line_count(out@.skip(len0 as int)) == 0,
        decreases dirs@.len() - di,
    {
        let ghost prev = out@;
        if *count == MAX_TREE_ENTRIES {
            let text = prefix.to_owned().concat(
                "... (truncated, exceeded 1000 entries. Use search_files to find specific files.)",
            );
            out.push(TreeLine { depth, truncation: true, text });
            proof {
                assert(out@.drop_last() =~= prev);
                assert(out@.skip(len0 as int).drop_last() =~= prev.skip(len0 as int));
                assert(out@.skip(len0 as int).last() == out@.last());
            }
            return Ok(false);
        }
        *count = *count + 1;
        let is_last = index == total - 1;
        let connector = if is_last {
            "\u{2514}\u{2500}\u{2500} "
        } else {
            "\u{251c}\u{2500}\u{2500} "
        };
        let name = &dirs[di].name;
        let text = prefix.to_owned().concat(connector).concat(name.as_str()).concat("/");
        out.push(TreeLine { depth, truncation: false, text });
        proof {
            assert(out@.drop_last() =~= prev);
            assert(out@.skip(len0 as int).drop_last() =~= prev.skip(len0 as int));
            assert(out@.skip(len0 as int).last() == out@.last());
            let texts = spec_level_texts(prefix@, dirs@, files@);
            assert(out@.last().text@ =~= spec_tree_dir_line(
                prefix@,
                is_last,
                dirs@[di as int].name@,
            ));
            assert(texts[index as int] == spec_tree_dir_line(
                prefix@,
                index as int == dirs@.len() + files@.len() - 1,
                dirs@[index as int].name@,
            ));
            assert(lines_at_depth(out@.skip(len0 as int), depth as int) =~= lines_at_depth(
                prev.skip(len0 as int),
                depth as int,
            ).push(out@.last().text@));
            assert(texts.subrange(0, index as int).push(texts[index as int]) =~= texts.subrange(
                0,
                index as int + 1,
            ));
            assert(lines_at_depth(out@.skip(len0 as int), depth as int) == texts.subrange(
                0,
                index as int + 1,
            ));
        }
        if depth < max_depth {
            let child_prefix = prefix.to_owned().concat(
                if is_last {
                    "    "
                } else {
                    "\u{2502}   "
                },
            );
            let child_path = join_path(dir, name.as_str());
            let ghost mid = out@;
            let ghost cmid = *count;
            let cont = match build_tree(
                child_path.as_str(),
                child_prefix.as_str(),
                max_depth,
                depth + 1,
                count,
                out,
            ) {
                Ok(c) => c,
                Err(f) => {
                    proof {
                        assert(out@.skip(len0 as int) =~= mid.skip(len0 as int) + out@.skip(
                            mid.len() as int,
                        ));
                        lemma_line_counts_concat(
                            mid.skip(len0 as int),
                            out@.skip(mid.len() as int),
                        );
                        assert(mid =~= out@.subrange(0, mid.len() as int));
                        assert forall|i: int|
                            #![trigger out@[i]]
                            len0 <= i < out@.len() && !out@[i].truncation implies depth
                            <= out@[i].depth <= max_depth by {
                            if i < mid.len() {
                                assert(out@[i] == mid[i]);
                            }
                        }
                    }
                    return Err(f);
                },
            };
            proof {
                assert(out@.skip(len0 as int) =~= mid.skip(len0 as int) + out@.skip(
                    mid.len() as int,
                ));
                lemma_line_counts_concat(mid.skip(len0 as int), out@.skip(mid.len() as int));
                assert(mid =~= out@.subrange(0, mid.len() as int));
                assert forall|i: int|
                    #![trigger out@[i]]
                    len0 <= i < out@.len() && !out@[i].truncation implies depth <= out@[i].depth
                    <= max_depth by {
                    if i < mid.len() {
                        assert(out@[i] == mid[i]);
                    }
                }
                let below = out@.skip(mid.len() as int);
                lemma_lines_at_depth_concat(mid.skip(len0 as int), below, depth as int);
                assert forall|i: int|
                    0 <= i < below.len() && !(#[trigger] below[i]).truncation implies below[i].depth
                    > depth as int by {
                    assert(below[i] == out@[mid.len() + i]);
                }
                lemma_lines_at_depth_none(below, depth as int);
                assert(lines_at_depth(out@.skip(len0 as int), depth as int) =~= lines_at_depth(
                    mid.skip(len0 as int),
                    depth as int,
                ));
            }
            if !cont {
                return Ok(false);
            }
        }
        index = index + 1;
        di = di + 1;
    }
    let mut fi: usize = 0;
    while fi < files.len()
        invariant
            len0 == old(out)@.len(),
            c0 == *old(count),
            depth <= max_depth,
            fi <= files@.len(),
            index == dirs@.len() + fi,
            total == dirs@.len() + files@.len(),
            total <= usize::MAX,
            entries_sorted(dirs@),
            entries_sorted(files@),
            forall|i: int|
                0 <= i < dirs@.len() ==> (#[trigger] dirs@[i]).is_dir && !spec_hidden_name(
                    dirs@[i].name@,
                ),
            forall|i: int|
                0 <= i < files@.len() ==> (#[trigger] files@[i]).is_file && !spec_hidden_name(
                    files@[i].name@,
                ),
            index <= total,
            lines_at_depth(out@.skip(len0 as int), depth as int) == spec_level_texts(
                prefix@,
                dirs@,
                files@,
            ).subrange(0, index as int),
            len0 <= out@.len(),
            old(out)@.is_prefix_of(out@),
            forall|i: int|
                #![trigger out@[i]]
                len0 <= i < out@.len() && !out@[i].truncation ==> depth <= out@[i].depth
                    <= max_depth,
            *count - c0 == entry_line_count(out@.skip(len0 as int)),
            *count <= MAX_TREE_ENTRIES,
            trunc_line_count(out@.skip(len0 as int)) == 0,
        decreases files@.len() - fi,
    {
        let ghost prev = out@;
        if *count == MAX_TREE_ENTRIES {
            let text = prefix.to_owned().concat(
                "... (truncated, exceeded 1000 entries. Use search_files to find specific files.)",
            );
            out.push(TreeLine { depth, truncation: true, text });
            proof {
                assert(out@.drop_last() =~= prev);
                assert(out@.skip(len0 as int).drop_last() =~= prev.skip(len0 as int));
                assert(out@.skip(len0 as int).last() == out@.last());
            }
            return Ok(false);
        }
        *count = *count + 1;
        let is_last = index == total - 1;
        let connector = if is_last {
            "\u{2514}\u{2500}\u{2500} "
        } else {
            "\u{251c}\u{2500}\u{2500} "
        };
        let entry = &files[fi];
        let size_str = crate::util::format_size(entry.size);
        let text = prefix.to_owned().concat(connector).concat(entry.name.as_str()).concat(
            " (",
        ).concat(size_str.as_str()).concat(")");
        out.push(TreeLine { depth, truncation: false, text });
        proof {
            assert(out@.drop_last() =~= prev);
            assert(out@.skip(len0 as int).drop_last() =~= prev.skip(len0 as int));
            assert(out@.skip(len0 as int).last() == out@.last());
            let texts = spec_level_texts(prefix@, dirs@, files@);
            assert(out@.last().text@ =~= spec_tree_file_line(
                prefix@,
                is_last,
                files@[fi as int].name@,
                files@[fi as int].size as int,
            ));
            assert(texts[index as int] == spec_tree_file_line(
                prefix@,
                dirs@.len() + (fi as int) == dirs@.len() + files@.len() - 1,
                files@[fi as int].name@,
                files@[fi as int].size as int,
            ));
            assert(lines_at_depth(out@.skip(len0 as int), depth as int) =~= lines_at_depth(
                prev.skip(len0 as int),
                depth as int,
            ).push(out@.last().text@));
            assert(texts.subrange(0, index as int).push(texts[index as int]) =~= texts.subrange(
                0,
                index as int + 1,
            ));
            assert(lines_at_depth(out@.skip(len0 as int), depth as int) == texts.subrange(
                0,
                index as int + 1,
            ));
        }
        index = index + 1;
        fi = fi + 1;
    }
    proof {
        let texts = spec_level_texts(prefix@, dirs@, files@);
        assert(texts.subrange(0, index as int) =~= texts);
        assert(level_rendered(out@.skip(len0 as int), prefix@, depth as int, dirs@, files@));
        assert(spec_level_rendering(out@.skip(len0 as int), prefix@, depth as int));
    }
    Ok(true)
}

/// The rendered text of a sequence of tree lines, one line each.
pub open spec fn spec_tree_text(lines: Seq<TreeLine>) -> Seq<char>
    decreases lines.len(),
{
    if lines.len() == 0 {
        Seq::empty()
    } else {
        spec_tree_text(lines.drop_last()) + lines.last().text@ + seq!['\n']
    }
}

/// Renders tree lines into one string, each line terminated by a newline.
pub fn render_tree_lines(lines: &Vec<TreeLine>) -> (r: String)
    ensures
        r@ == spec_tree_text(lines@),
{
    proof {
        reveal_strlit("\n");
    }
    let mut r = String::new();
    let mut i: usize = 0;
    proof {
        assert(lines@.subrange(0, 0) =~= Seq::<TreeLine>::empty());
    }
    while i < lines.len()
        invariant
            i <= lines@.len(),
            r@ == spec_tree_text(lines@.subrange(0, i as int)),
        decreases lines@.len() - i,
    {
        let ghost before = lines@.subrange(0, i as int);
        r.append(lines[i].text.as_str());
        r.append("\n");
        proof {
            reveal_strlit("\n");
            let after = lines@.subrange(0, i as int + 1);
            assert(after.drop_last() =~= before);
            assert(after.last() == lines@[i as int]);
            assert(r@ =~= spec_tree_text(after));
        }
        i += 1;
    }
    proof {
        assert(lines@.subrange(0, lines@.len() as int) =~= lines@);
    }
    r
}

/// What a well-formed tree report is: the authorized root followed by the
/// rendered lines of a walk that kept every entry within the depth bound,
/// stayed under the entry ceiling, and emitted at most one truncation
/// notice.
pub open spec fn is_tree_report_of(
    s: Seq<char>,
    root: Seq<char>,
    lines: Seq<TreeLine>,
    max_depth: int,
) -> bool {
    &&& s == root + ("/\n")@ + spec_tree_text(lines)
    &&& entry_line_count(lines) <= MAX_TREE_ENTRIES
    &&& trunc_line_count(lines) <= 1
    &&& forall|i: int|
        0 <= i < lines.len() && !(#[trigger] lines[i]).truncation ==> lines[i].depth <= max_depth
}

/// A successful tree outcome: the report of some bounded walk rooted at
/// some authorized canonical directory.
pub open spec fn spec_tree_success(ctx: &SecurityContext, s: Seq<char>, max_depth: int) -> bool {
    exists|root: Seq<char>, lines: Seq<TreeLine>|
        ctx.path_allowed(root) && #[trigger] is_tree_report_of(s, root, lines, max_depth)
}

/// Displays a visual tree of the directory structure rooted at an
/// authorized directory path.
///
/// Every success renders an authorized canonical root followed by lines
/// whose depths stay within the bound, whose entry count stays under the
/// ceiling, and which carry at most one truncation notice.
pub fn directory_tree(ctx: &SecurityContext, path: &str, max_depth: usize) -> (r: Result<
    String,
    String,
>)
    ensures
        r matches Ok(s) ==> spec_tree_success(ctx, s@, max_depth as int),
{
    let canonical = match ctx.validate_directory(path) {
        Ok(c) => c,
        Err(e) => {
            return Err(e.message());
        },
    };
    let ghost root = canonical@;
    let mut count: usize = 0;
    let mut lines: Vec<TreeLine> = Vec::new();
    match build_tree(canonical.as_str(), "", max_depth, 0, &mut count, &mut lines) {
        Err(f) => Err(f.message),
        Ok(_) => {
            proof {
                assert(lines@.skip(0) =~= lines@);
            }
            let body = render_tree_lines(&lines);
            let report = canonical.concat("/\n").concat(body.as_str());
            proof {
                reveal_strlit("/\n");
                assert(report@ =~= root + ("/\n")@ + spec_tree_text(lines@));
                assert(is_tree_report_of(report@, root, lines@, max_depth as int));
                assert(spec_tree_success(ctx, report@, max_depth as int));
            }
            Ok(report)
        },
    }
}

} // verus!
