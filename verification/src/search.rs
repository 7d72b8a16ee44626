//! Bounded glob search: finds files under an authorized directory whose
//! path relative to that directory matches a glob pattern, visiting
//! subdirectories in sorted order, never descending past the configured
//! depth, and stopping at a result cap.

use vstd::prelude::*;

verus! {

use crate::error::FsError;
use crate::fsops::{read_dir_entries, DirEntryInfo};
use crate::order::sort_strings;
use crate::paths::{
    contained_in,
    is_absolute_path,
    is_plain_segment,
    join_path,
    lemma_contained_refl,
    lemma_contained_trans,
    lemma_join_containment,
    lemma_join_segments,
    lemma_plain_segment_value,
    path_segments,
    spec_join,
};
use crate::security::SecurityContext;
use crate::util::{dec_rep, spec_format_size, format_size, u64_to_string};

broadcast use vstd::seq_lib::group_to_multiset_ensures;

#[verifier::external_type_specification]
#[verifier::external_body]
pub struct ExGlobSet(globset::GlobSet);

/// Whether a glob pattern compiles, both its syntax and the size of its
/// compiled form; compilation depends on the pattern alone.
pub uninterp spec fn glob_compiles(pattern: Seq<char>) -> bool;

/// Whether a path matches a glob pattern; the answer depends on the
/// pattern and the path alone.
pub uninterp spec fn glob_match(pattern: Seq<char>, path: Seq<char>) -> bool;

/// A compiled glob pattern, paired with the pattern text it was compiled
/// from.
pub struct GlobPattern {
    pattern: String,
    matcher: globset::GlobSet,
}

impl GlobPattern {
    /// The pattern this matcher was compiled from.
    pub closed spec fn spec_pattern(&self) -> Seq<char> {
        self.pattern@
    }

    /// Relies on globset::Glob::new and GlobSetBuilder::build: whether a
    /// pattern parses and its compiled form fits the crate's size limit is
    /// a function of the pattern text alone, and the matcher holds the
    /// compiled form of exactly that one pattern.  Oversized patterns come
    /// back as the builder's error, never a panic.  The error text is
    /// handed through unstated.
    #[verifier::external_body]
    pub fn compile(pattern: &str) -> (r: Result<GlobPattern, String>)
        ensures
            r is Ok <==> glob_compiles(pattern@),
            r matches Ok(g) ==> g.spec_pattern() == pattern@,
    {
        let glob = match globset::Glob::new(pattern) {
            Ok(g) => g,
            Err(e) => return Err(e.to_string()),
        };
        let mut builder = globset::GlobSetBuilder::new();
        builder.add(glob);
        match builder.build() {
            Ok(set) => Ok(GlobPattern { pattern: pattern.to_owned(), matcher: set }),
            Err(e) => Err(e.to_string()),
        }
    }

    /// Relies on globset::GlobSet::is_match on a one-pattern set: the
    /// answer is a function of the compiled pattern and the queried path
    /// alone.
    #[verifier::external_body]
    pub fn is_match(&self, path: &str) -> (r: bool)
        ensures
            r == glob_match(self.spec_pattern(), path@),
    {
        self.matcher.is_match(std::path::Path::new(path))
    }
}

/// One search result: the canonical path of a matching file, its path
/// relative to the search root, and its size.
pub struct SearchHit {
    pub path: String,
    pub rel: String,
    pub size: u64,
}

/// The path of an entry relative to the search root: the bare name at the
/// root itself, the joined path below it.
pub open spec fn spec_rel_child(rel: Seq<char>, name: Seq<char>) -> Seq<char> {
    if rel.len() == 0 {
        name
    } else {
        spec_join(rel, name)
    }
}

/// Descending to a child entry lengthens the relative path by exactly one
/// component.
proof fn lemma_rel_child_segments(rel: Seq<char>, name: Seq<char>)
    requires
        is_plain_segment(name),
    ensures
        path_segments(spec_rel_child(rel, name)).len() == path_segments(rel).len() + 1,
{
    if rel.len() == 0 {
        lemma_plain_segment_value(name);
        assert(path_segments(rel) =~= Seq::<Seq<char>>::empty());
    } else {
        lemma_join_segments(rel, name);
    }
}

/// The plain-value views of a sequence of hits.
pub open spec fn spec_hit_views(hits: Seq<SearchHit>) -> Seq<(Seq<char>, Seq<char>, u64)> {
    hits.map_values(|h: SearchHit| (h.path@, h.rel@, h.size))
}

/// The hits one directory listing owes the caller, in listing order: one
/// per readable regular file whose relative path matches the pattern.
pub open spec fn spec_level_matches(
    list: Seq<Option<DirEntryInfo>>,
    dir: Seq<char>,
    rel: Seq<char>,
    pattern: Seq<char>,
) -> Seq<(Seq<char>, Seq<char>, u64)>
    decreases list.len(),
{
    if list.len() == 0 {
        Seq::empty()
    } else {
        let rest = spec_level_matches(list.drop_last(), dir, rel, pattern);
        match list.last() {
            Some(e) => if !e.is_dir && e.is_file && glob_match(
                pattern,
                spec_rel_child(rel, e.name@),
            ) {
                rest.push((spec_join(dir, e.name@), spec_rel_child(rel, e.name@), e.size))
            } else {
                rest
            },
            None => rest,
        }
    }
}

/// The owed hits of a listing prefix are a prefix of the owed hits of the
/// whole listing.
proof fn lemma_level_matches_prefix(
    list: Seq<Option<DirEntryInfo>>,
    dir: Seq<char>,
    rel: Seq<char>,
    pattern: Seq<char>,
    j: int,
)
    requires
        0 <= j <= list.len(),
    ensures
        spec_level_matches(list.subrange(0, j), dir, rel, pattern).is_prefix_of(
            spec_level_matches(list, dir, rel, pattern),
        ),
    decreases list.len() - j,
{
    let c = spec_level_matches(list, dir, rel, pattern);
    if j == list.len() {
        assert(list.subrange(0, j) =~= list);
        let a = spec_level_matches(list.subrange(0, j), dir, rel, pattern);
        assert(a =~= c.subrange(0, a.len() as int));
    } else {
        lemma_level_matches_prefix(list, dir, rel, pattern, j + 1);
        let a = spec_level_matches(list.subrange(0, j), dir, rel, pattern);
        let b = spec_level_matches(list.subrange(0, j + 1), dir, rel, pattern);
        assert(list.subrange(0, j + 1).drop_last() =~= list.subrange(0, j));
        assert(list.subrange(0, j + 1).last() == list[j]);
        assert(a.is_prefix_of(b));
        assert(a =~= c.subrange(0, a.len() as int));
    }
}

/// Appends the matching files of one directory listing, in listing order,
/// until the cap is reached.
///
/// The appended hits are exactly the hits the listing owes — or the
/// prefix of them that fills the result set, when it reports the set
/// full; each one matches the pattern, lies under `dir`, and is one
/// component deeper than `rel`.
pub fn append_level_matches(
    g: &GlobPattern,
    list: &Vec<Option<DirEntryInfo>>,
    dir: &str,
    rel: &str,
    max_results: usize,
    results: &mut Vec<SearchHit>,
) -> (full: bool)
    requires
        old(results)@.len() < max_results || old(results)@.len() == 0,
        is_absolute_path(dir@),
        forall|i: int|
            0 <= i < list@.len() ==> (#[trigger] list@[i] matches Some(e) ==> is_plain_segment(
                e.name@,
            )),
    ensures
        old(results)@.is_prefix_of(final(results)@),
        forall|i: int|
            old(results)@.len() <= i < final(results)@.len() ==> {
                &&& glob_match(g.spec_pattern(), (#[trigger] final(results)@[i]).rel@)
                &&& contained_in(final(results)@[i].path@, dir@)
                &&& path_segments(final(results)@[i].rel@).len() == path_segments(rel@).len() + 1
            },
        final(results)@.len() <= max_results || (max_results == 0 && final(results)@.len() <= 1),
        full ==> final(results)@.len() >= max_results,
        !full ==> (final(results)@.len() < max_results || final(results)@.len() == 0),
        ({
            let owed = spec_level_matches(list@, dir@, rel@, g.spec_pattern());
            let appended = spec_hit_views(final(results)@.skip(old(results)@.len() as int));
            &&& (!full ==> appended == owed)
            &&& (full ==> appended == owed.subrange(0, appended.len() as int))
        }),
{
    let ghost len0 = results@.len();
    let ghost viewfn = |h: SearchHit| (h.path@, h.rel@, h.size);
    let mut j: usize = 0;
    proof {
        assert(list@.subrange(0, 0) =~= Seq::<Option<DirEntryInfo>>::empty());
        assert(results@.skip(len0 as int) =~= Seq::<SearchHit>::empty());
        assert(results@.skip(len0 as int).map_values(viewfn) =~= Seq::<(
            Seq<char>,
            Seq<char>,
            u64,
        )>::empty());
    }
    while j < list.len()
        invariant
            j <= list@.len(),
            len0 == old(results)@.len(),
            viewfn == (|h: SearchHit| (h.path@, h.rel@, h.size)),
            is_absolute_path(dir@),
            forall|i: int|
                0 <= i < list@.len() ==> (#[trigger] list@[i] matches Some(e)
                    ==> is_plain_segment(e.name@)),
            old(results)@.is_prefix_of(results@),
            forall|i: int|
                len0 <= i < results@.len() ==> {
                    &&& glob_match(g.spec_pattern(), (#[trigger] results@[i]).rel@)
                    &&& contained_in(results@[i].path@, dir@)
                    &&& path_segments(results@[i].rel@).len() == path_segments(rel@).len() + 1
                },
            results@.len() < max_results || (max_results == 0 && results@.len() == 0),
            results@.skip(len0 as int).map_values(viewfn) == spec_level_matches(
                list@.subrange(0, j as int),
                dir@,
                rel@,
                g.spec_pattern(),
            ),
        decreases list@.len() - j,
    {
        let ghost before = list@.subrange(0, j as int);
        let ghost after = list@.subrange(0, j as int + 1);
        proof {
            assert(after.drop_last() =~= before);
            assert(after.last() == list@[j as int]);
        }
        match &list[j] {
            None => {},
            Some(e) => {
                if !e.is_dir && e.is_file {
                    let rel_path = if rel.unicode_len() == 0 {
                        e.name.clone()
                    } else {
                        join_path(rel, e.name.as_str())
                    };
                    proof {
                        assert(rel_path@ == spec_rel_child(rel@, e.name@));
                        lemma_rel_child_segments(rel@, e.name@);
                    }
                    if g.is_match(rel_path.as_str()) {
                        let full_path = join_path(dir, e.name.as_str());
                        proof {
                            lemma_contained_refl(dir@);
                            lemma_join_containment(dir@, dir@, e.name@);
                        }
                        let size = e.size;
                        let ghost prev = results@;
                        results.push(SearchHit { path: full_path, rel: rel_path, size });
                        proof {
                            assert(results@.drop_last() =~= prev);
                            assert(prev.is_prefix_of(results@));
                            assert(results@.skip(len0 as int).map_values(viewfn) =~= prev.skip(
                                len0 as int,
                            ).map_values(viewfn).push(
                                (
                                    results@.last().path@,
                                    results@.last().rel@,
                                    results@.last().size,
                                ),
                            ));
                            assert(results@.skip(len0 as int).map_values(viewfn)
                                == spec_level_matches(after, dir@, rel@, g.spec_pattern()));
                        }
                        if results.len() >= max_results {
                            proof {
                                lemma_level_matches_prefix(
                                    list@,
                                    dir@,
                                    rel@,
                                    g.spec_pattern(),
                                    j as int + 1,
                                );
                                let owed = spec_level_matches(
                                    list@,
                                    dir@,
                                    rel@,
                                    g.spec_pattern(),
                                );
                                let appended = spec_hit_views(results@.skip(len0 as int));
                                assert(appended =~= owed.subrange(0, appended.len() as int));
                            }
                            return true;
                        }
                    }
                }
            },
        }
        j += 1;
    }
    proof {
        assert(list@.subrange(0, list@.len() as int) =~= list@);
    }
    false
}

/// Walks a directory subtree, appending every file whose relative path
/// matches the pattern, until the cap is reached.
///
/// Every appended hit matches the pattern, lies under the directory being
/// walked, and sits at most one component below the depth bound; the walk
/// stops exactly when it reports the result set full.  Within each
/// directory the owed matches are appended completely and in listing
/// order (see `append_level_matches`); subdirectories follow in sorted
/// order.
pub fn search_walk(
    g: &GlobPattern,
    dir: &str,
    rel: &str,
    depth: usize,
    max_depth: usize,
    max_results: usize,
    results: &mut Vec<SearchHit>,
) -> (full: bool)
    requires
        old(results)@.len() < max_results || old(results)@.len() == 0,
        is_absolute_path(dir@),
        path_segments(rel@).len() == depth as int,
        depth <= max_depth,
    ensures
        old(results)@.is_prefix_of(final(results)@),
        forall|i: int|
            old(results)@.len() <= i < final(results)@.len() ==> {
                &&& glob_match(g.spec_pattern(), (#[trigger] final(results)@[i]).rel@)
                &&& contained_in(final(results)@[i].path@, dir@)
                &&& path_segments(final(results)@[i].rel@).len() <= max_depth as int + 1
            },
        final(results)@.len() <= max_results || (max_results == 0 && final(results)@.len() <= 1),
        full ==> final(results)@.len() >= max_results,
        !full ==> (final(results)@.len() < max_results || final(results)@.len() == 0),
    decreases max_depth - depth,
{
    let ghost len0 = results@.len();
    let list = match read_dir_entries(dir) {
        Ok(l) => l,
        Err(_) => {
            return false;
        },
    };
    let level_full = append_level_matches(g, &list, dir, rel, max_results, results);
    if level_full {
        return true;
    }
    let mut subdirs: Vec<String> = Vec::new();
    let mut j: usize = 0;
    while j < list.len()
        invariant
            j <= list@.len(),
            forall|i: int|
                0 <= i < list@.len() ==> (#[trigger] list@[i] matches Some(e)
                    ==> is_plain_segment(e.name@)),
            forall|i: int| 0 <= i < subdirs@.len() ==> is_plain_segment(#[trigger] subdirs@[i]@),
            subdirs@.len() > 0 ==> depth < max_depth,
        decreases list@.len() - j,
    {
        match &list[j] {
            None => {},
            Some(e) => {
                if e.is_dir && depth < max_depth {
                    subdirs.push(e.name.clone());
                }
            },
        }
        j += 1;
    }
    let subdirs = sort_strings(subdirs);
    proof {
        assert forall|i: int| 0 <= i < subdirs@.len() implies is_plain_segment(
            #[trigger] subdirs@[i]@,
        ) by {
            assert(subdirs@.contains(subdirs@[i]));
            assert(subdirs@.to_multiset().count(subdirs@[i]) > 0);
        }
    }
    let mut k: usize = 0;
    while k < subdirs.len()
        invariant
            k <= subdirs@.len(),
            len0 == old(results)@.len(),
            is_absolute_path(dir@),
            path_segments(rel@).len() == depth as int,
            depth <= max_depth,
            subdirs@.len() > 0 ==> depth < max_depth,
            forall|i: int| 0 <= i < subdirs@.len() ==> is_plain_segment(#[trigger] subdirs@[i]@),
            old(results)@.is_prefix_of(results@),
            forall|i: int|
                len0 <= i < results@.len() ==> {
                    &&& glob_match(g.spec_pattern(), (#[trigger] results@[i]).rel@)
                    &&& contained_in(results@[i].path@, dir@)
                    &&& path_segments(results@[i].rel@).len() <= max_depth as int + 1
                },
            results@.len() < max_results || (max_results == 0 && results@.len() == 0),
        decreases subdirs@.len() - k,
    {
        let name = &subdirs[k];
        let child_dir = join_path(dir, name.as_str());
        let child_rel = if rel.unicode_len() == 0 {
            name.clone()
        } else {
            join_path(rel, name.as_str())
        };
        proof {
            lemma_contained_refl(dir@);
            lemma_join_containment(dir@, dir@, name@);
            assert(child_rel@ == spec_rel_child(rel@, name@));
            lemma_rel_child_segments(rel@, name@);
        }
        let ghost mid = results@;
        let full = search_walk(
            g,
            child_dir.as_str(),
            child_rel.as_str(),
            depth + 1,
            max_depth,
            max_results,
            results,
        );
        proof {
            assert(mid =~= results@.subrange(0, mid.len() as int));
            assert forall|i: int| len0 <= i < results@.len() implies {
                &&& glob_match(g.spec_pattern(), (#[trigger] results@[i]).rel@)
                &&& contained_in(results@[i].path@, dir@)
                &&& path_segments(results@[i].rel@).len() <= max_depth as int + 1
            } by {
                if i < mid.len() {
                    assert(results@[i] == mid[i]);
                } else {
                    assert(contained_in(results@[i].path@, child_dir@));
                    lemma_contained_trans(results@[i].path@, child_dir@, dir@);
                }
            }
            assert(old(results)@.is_prefix_of(results@));
        }
        if full {
            return true;
        }
        k += 1;
    }
    false
}

/// The rendered line for one search hit.
pub open spec fn spec_result_line(h: SearchHit) -> Seq<char> {
    h.path@ + (" (")@ + spec_format_size(h.size as int) + (")")@ + ("\n")@
}

/// The rendered lines for a sequence of hits.
pub open spec fn spec_result_lines(hits: Seq<SearchHit>) -> Seq<char>
    decreases hits.len(),
{
    if hits.len() == 0 {
        Seq::empty()
    } else {
        spec_result_lines(hits.drop_last()) + spec_result_line(hits.last())
    }
}

/// The full report for a search: a no-match notice, or a header followed
/// by one line per hit.
pub open spec fn spec_format_search_results(
    root: Seq<char>,
    pattern: Seq<char>,
    hits: Seq<SearchHit>,
    truncated: bool,
) -> Seq<char> {
    if hits.len() == 0 {
        ("No matches found for pattern \"")@ + pattern + ("\" in ")@ + root
    } else {
        ("Found ")@ + dec_rep(hits.len() as int) + (" match")@ + (if hits.len() == 1 {
            Seq::<char>::empty()
        } else {
            ("es")@
        }) + (" for pattern \"")@ + pattern + ("\" in ")@ + root + (if truncated {
            (" (results truncated)")@
        } else {
            Seq::<char>::empty()
        }) + (":\n\n")@ + spec_result_lines(hits)
    }
}

/// Renders the search report.
pub fn format_search_results(
    root: &str,
    pattern: &str,
    results: &Vec<SearchHit>,
    truncated: bool,
) -> (r: String)
    ensures
        r@ == spec_format_search_results(root@, pattern@, results@, truncated),
{
    if results.len() == 0 {
        let r = String::from_str("No matches found for pattern \"").concat(pattern).concat(
            "\" in ",
        ).concat(root);
        proof {
            assert(r@ =~= spec_format_search_results(root@, pattern@, results@, truncated));
        }
        return r;
    }
    let mut r = String::from_str("Found ").concat(u64_to_string(results.len() as u64).as_str());
    if results.len() == 1 {
        r = r.concat(" match");
    } else {
        r = r.concat(" matches");
        proof {
            reveal_strlit(" match");
            reveal_strlit(" matches");
            reveal_strlit("es");
            assert((" matches")@ =~= (" match")@ + ("es")@);
        }
    }
    r = r.concat(" for pattern \"").concat(pattern).concat("\" in ").concat(root);
    if truncated {
        r = r.concat(" (results truncated)");
    }
    r = r.concat(":\n\n");
    let ghost header = r@;
    let mut i: usize = 0;
    proof {
        assert(results@.subrange(0, 0) =~= Seq::<SearchHit>::empty());
    }
    while i < results.len()
        invariant
            i <= results@.len(),
            r@ == header + spec_result_lines(results@.subrange(0, i as int)),
        decreases results@.len() - i,
    {
        let ghost before = results@.subrange(0, i as int);
        let h = &results[i];
        r = r.concat(h.path.as_str()).concat(" (").concat(format_size(h.size).as_str()).concat(
            ")\n",
        );
        proof {
            reveal_strlit(")\n");
            reveal_strlit(")");
            reveal_strlit("\n");
            let after = results@.subrange(0, i as int + 1);
            assert(after.drop_last() =~= before);
            assert(after.last() == results@[i as int]);
            assert((")\n")@ =~= (")")@ + ("\n")@);
            assert(r@ =~= header + spec_result_lines(after));
        }
        i += 1;
    }
    proof {
        assert(results@.subrange(0, results@.len() as int) =~= results@);
        assert(r@ =~= spec_format_search_results(root@, pattern@, results@, truncated));
    }
    r
}

/// What a well-formed search report is: the rendered form of some hit
/// sequence in which every hit matches the pattern, lies under the given
/// root, and sits within the depth bound, with the count capped at the
/// hard ceiling.
pub open spec fn is_search_report_of(
    s: Seq<char>,
    pattern: Seq<char>,
    root: Seq<char>,
    hits: Seq<SearchHit>,
    truncated: bool,
    max_depth: int,
) -> bool {
    &&& forall|i: int|
        0 <= i < hits.len() ==> {
            &&& glob_match(pattern, (#[trigger] hits[i]).rel@)
            &&& contained_in(hits[i].path@, root)
            &&& path_segments(hits[i].rel@).len() <= max_depth + 1
        }
    &&& hits.len() <= 200
    &&& s == spec_format_search_results(root, pattern, hits, truncated)
}

/// A successful search outcome: the rendered report of some hit sequence
/// over some authorized canonical root.
pub open spec fn spec_search_success(
    ctx: &SecurityContext,
    s: Seq<char>,
    pattern: Seq<char>,
    max_depth: int,
) -> bool {
    exists|root: Seq<char>, hits: Seq<SearchHit>, truncated: bool|
        ctx.path_allowed(root) && #[trigger] is_search_report_of(
            s,
            pattern,
            root,
            hits,
            truncated,
            max_depth,
        )
}

/// Searches for files matching a glob pattern within an authorized
/// directory tree, visiting subdirectories in sorted order, with the
/// result count capped.
///
/// Every success renders the report of some hit sequence over an
/// authorized canonical root in which each hit matches the pattern, lies
/// under that root and within the depth bound, capped at the ceiling.
pub fn search_files(
    ctx: &SecurityContext,
    path: &str,
    pattern: &str,
    max_results: Option<u32>,
    max_depth: usize,
) -> (r: Result<String, String>)
    ensures
        r is Ok ==> glob_compiles(pattern@),
        r matches Ok(s) ==> spec_search_success(ctx, s@, pattern@, max_depth as int),
{
    let canonical = match ctx.validate_directory(path) {
        Ok(c) => c,
        Err(e) => {
            return Err(e.message());
        },
    };
    let g = match GlobPattern::compile(pattern) {
        Ok(g) => g,
        Err(m) => {
            return Err(FsError::PatternError { message: m }.message());
        },
    };
    let cap_u32: u32 = match max_results {
        Some(m) => if m < 200 {
            m
        } else {
            200
        },
        None => 50,
    };
    let cap = cap_u32 as usize;
    proof {
        let w = choose|w: int|
            0 <= w < ctx.roots().len() && contained_in(canonical@, #[trigger] ctx.roots()[w]);
        assert(is_absolute_path(canonical@));
        reveal_strlit("");
        assert(("")@ =~= Seq::<char>::empty());
        assert(path_segments(("")@) =~= Seq::<Seq<char>>::empty());
    }
    let mut results: Vec<SearchHit> = Vec::new();
    let full = search_walk(&g, canonical.as_str(), "", 0, max_depth, cap, &mut results);
    let report = format_search_results(canonical.as_str(), pattern, &results, full);
    proof {
        assert(ctx.path_allowed(canonical@));
        assert(results@.len() <= 200);
        assert forall|i: int| 0 <= i < results@.len() implies {
            &&& glob_match(pattern@, (#[trigger] results@[i]).rel@)
            &&& contained_in(results@[i].path@, canonical@)
            &&& path_segments(results@[i].rel@).len() <= max_depth as int + 1
        } by {}
        assert(is_search_report_of(
            report@,
            pattern@,
            canonical@,
            results@,
            full,
            max_depth as int,
        ));
        assert(spec_search_success(ctx, report@, pattern@, max_depth as int));
    }
    Ok(report)
}

} // verus!
