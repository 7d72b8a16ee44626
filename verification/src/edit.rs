//! Exact-text replacement: each edit must match exactly one location in
//! the file, and the applied result is reported as a unified diff.

use vstd::prelude::*;

verus! {

use crate::error::FsError;
use crate::util::{dec_rep, u64_to_string};

/// One text replacement to apply.
pub struct EditOperation {
    pub old_text: String,
    pub new_text: String,
}

/// Whether the pattern occurs in the text at position `i`.
pub open spec fn match_at(text: Seq<char>, pat: Seq<char>, i: int) -> bool {
    0 <= i && i + pat.len() <= text.len() && text.subrange(i, i + pat.len()) == pat
}

/// The number of non-overlapping occurrences of a non-empty pattern,
/// scanning from the left.
pub open spec fn nonoverlap_count(text: Seq<char>, pat: Seq<char>) -> int
    recommends
        pat.len() > 0,
    decreases text.len(),
{
    if pat.len() == 0 {
        0
    } else if text.len() < pat.len() {
        0
    } else if text.subrange(0, pat.len() as int) == pat {
        1 + nonoverlap_count(text.skip(pat.len() as int), pat)
    } else {
        nonoverlap_count(text.skip(1), pat)
    }
}

/// The index of the first occurrence of a non-empty pattern, or -1.
pub open spec fn first_match(text: Seq<char>, pat: Seq<char>) -> int
    recommends
        pat.len() > 0,
    decreases text.len(),
{
    if pat.len() == 0 {
        -1
    } else if text.len() < pat.len() {
        -1
    } else if text.subrange(0, pat.len() as int) == pat {
        0
    } else {
        let r = first_match(text.skip(1), pat);
        if r < 0 {
            -1
        } else {
            r + 1
        }
    }
}

/// The text with the first occurrence of the pattern replaced.
pub open spec fn spec_replace_first(text: Seq<char>, pat: Seq<char>, repl: Seq<char>) -> Seq<
    char,
> {
    let i = first_match(text, pat);
    text.subrange(0, i) + repl + text.skip(i + pat.len())
}

/// The first match, when there is one, is a match, and nothing matches
/// before it; when there is none, nothing matches at all.
pub proof fn lemma_first_match_spec(text: Seq<char>, pat: Seq<char>)
    requires
        pat.len() > 0,
    ensures
        first_match(text, pat) >= 0 ==> match_at(text, pat, first_match(text, pat)),
        first_match(text, pat) >= 0 ==> forall|k: int|
            0 <= k < first_match(text, pat) ==> !match_at(text, pat, k),
        first_match(text, pat) < 0 ==> forall|k: int| !match_at(text, pat, k),
    decreases text.len(),
{
    if text.len() < pat.len() {
        assert(forall|k: int| !match_at(text, pat, k));
    } else if text.subrange(0, pat.len() as int) == pat {
        assert(match_at(text, pat, 0));
    } else {
        lemma_first_match_spec(text.skip(1), pat);
        let t1 = text.skip(1);
        assert forall|k: int| 1 <= k implies match_at(text, pat, k) == match_at(
            t1,
            pat,
            k - 1,
        ) by {
            if k + pat.len() <= text.len() {
                assert(text.subrange(k, k + pat.len()) =~= t1.subrange(
                    k - 1,
                    k - 1 + pat.len(),
                ));
            }
        }
        assert(!match_at(text, pat, 0));
        let r = first_match(t1, pat);
        if r >= 0 {
            assert(first_match(text, pat) == r + 1);
            assert(match_at(t1, pat, r));
            assert(match_at(text, pat, r + 1));
            assert forall|k: int| 0 <= k < r + 1 implies !match_at(text, pat, k) by {
                if k >= 1 {
                    assert(!match_at(t1, pat, k - 1));
                }
            }
        } else {
            assert forall|k: int| !match_at(text, pat, k) implies true by {}
            assert forall|k: int| match_at(text, pat, k) implies false by {
                if k >= 1 {
                    assert(match_at(t1, pat, k - 1));
                }
            }
        }
    }
}

/// Whether the pattern occurs at position `i` of the text.
fn match_at_exec(text: &str, pat: &str, i: usize) -> (b: bool)
    requires
        i + pat@.len() <= text@.len(),
    ensures
        b == match_at(text@, pat@, i as int),
{
    let n = text.unicode_len();
    let m = pat.unicode_len();
    let mut j: usize = 0;
    while j < m
        invariant
            j <= m,
            m == pat@.len(),
            n == text@.len(),
            i + m <= n,
            forall|k: int| 0 <= k < j ==> text@[i + k] == pat@[k],
        decreases m - j,
    {
        if text.get_char(i + j) != pat.get_char(j) {
            proof {
                assert(text@.subrange(i as int, i + m) != pat@) by {
                    if text@.subrange(i as int, i + m) == pat@ {
                        assert(text@.subrange(i as int, i + m)[j as int] == text@[i + j]);
                    }
                }
            }
            return false;
        }
        j += 1;
    }
    proof {
        assert(text@.subrange(i as int, i + m) =~= pat@);
    }
    true
}

/// Counts the non-overlapping occurrences of a non-empty pattern.
pub fn count_matches(text: &str, pat: &str) -> (r: usize)
    requires
        pat@.len() > 0,
    ensures
        r as int == nonoverlap_count(text@, pat@),
{
    let n = text.unicode_len();
    let m = pat.unicode_len();
    let mut pos: usize = 0;
    let mut cnt: usize = 0;
    proof {
        assert(text@.skip(0) =~= text@);
    }
    if m > n {
        return 0;
    }
    while pos <= n - m
        invariant
            m == pat@.len(),
            n == text@.len(),
            0 < m <= n,
            pos <= n,
            cnt <= pos,
            cnt + nonoverlap_count(text@.skip(pos as int), pat@) == nonoverlap_count(
                text@,
                pat@,
            ),
        decreases n - pos,
    {
        let ghost rest = text@.skip(pos as int);
        proof {
            assert(rest.subrange(0, m as int) =~= text@.subrange(pos as int, pos + m));
        }
        if match_at_exec(text, pat, pos) {
            proof {
                assert(rest.subrange(0, m as int) == pat@);
                assert(rest.skip(m as int) =~= text@.skip(pos + m));
            }
            cnt += 1;
            pos += m;
        } else {
            proof {
                assert(rest.subrange(0, m as int) != pat@);
                assert(rest.skip(1) =~= text@.skip(pos as int + 1));
            }
            pos += 1;
        }
    }
    proof {
        assert(nonoverlap_count(text@.skip(pos as int), pat@) == 0);
    }
    cnt
}

/// Finds the first occurrence of a non-empty pattern.
pub fn find_first(text: &str, pat: &str) -> (r: Option<usize>)
    requires
        pat@.len() > 0,
    ensures
        r matches Some(i) ==> first_match(text@, pat@) == i as int,
        r is None ==> first_match(text@, pat@) < 0,
{
    proof {
        lemma_first_match_spec(text@, pat@);
    }
    let n = text.unicode_len();
    let m = pat.unicode_len();
    let mut pos: usize = 0;
    if m > n {
        return None;
    }
    while pos <= n - m
        invariant
            m == pat@.len(),
            n == text@.len(),
            0 < m <= n,
            pos <= n,
            forall|k: int| 0 <= k < pos ==> !match_at(text@, pat@, k),
            first_match(text@, pat@) >= 0 ==> match_at(text@, pat@, first_match(text@, pat@)),
            first_match(text@, pat@) >= 0 ==> forall|k: int|
                0 <= k < first_match(text@, pat@) ==> !match_at(text@, pat@, k),
            first_match(text@, pat@) < 0 ==> forall|k: int| !match_at(text@, pat@, k),
        decreases n - pos,
    {
        if match_at_exec(text, pat, pos) {
            proof {
                assert(first_match(text@, pat@) == pos as int) by {
                    if first_match(text@, pat@) < 0 {
                        assert(!match_at(text@, pat@, pos as int));
                    } else if first_match(text@, pat@) < pos {
                        assert(match_at(text@, pat@, first_match(text@, pat@)));
                    } else if first_match(text@, pat@) > pos {
                        assert(!match_at(text@, pat@, pos as int));
                    }
                }
            }
            return Some(pos);
        }
        pos += 1;
    }
    proof {
        assert forall|k: int| true implies !match_at(text@, pat@, k) by {
            if 0 <= k && k + m <= n {
                assert(k < pos);
            }
        }
        if first_match(text@, pat@) >= 0 {
            assert(match_at(text@, pat@, first_match(text@, pat@)));
        }
    }
    None
}

/// A quoted preview of the first characters of a pattern, for error
/// reports.
pub open spec fn spec_preview(s: Seq<char>) -> Seq<char> {
    let cut = if s.len() <= 80 {
        s
    } else {
        s.subrange(0, 80)
    };
    seq!['"'] + cut + seq!['"']
}

/// Renders the quoted preview of a pattern.
fn preview(s: &str) -> (r: String)
    ensures
        r@ == spec_preview(s@),
{
    proof {
        reveal_strlit("\"");
    }
    let n = s.unicode_len();
    let cut = if n <= 80 {
        s
    } else {
        s.substring_char(0, 80)
    };
    let r = String::from_str("\"").concat(cut).concat("\"");
    proof {
        assert(r@ =~= spec_preview(s@));
    }
    r
}

/// The outcome of one edit: the new text, or the reason it cannot be
/// applied.  An empty pattern is rejected; a pattern that matches nowhere
/// or in more than one place is rejected.
pub open spec fn spec_edit_outcome(text: Seq<char>, old: Seq<char>, new: Seq<char>) -> Result<
    Seq<char>,
    Seq<char>,
> {
    if old.len() == 0 {
        Err(("old_text must not be empty")@)
    } else {
        let c = nonoverlap_count(text, old);
        if c == 0 {
            Err(("old_text not found: ")@ + spec_preview(old))
        } else if c > 1 {
            Err(
                ("old_text matches ")@ + dec_rep(c) + (" locations (must be unique): ")@
                    + spec_preview(old),
            )
        } else {
            Ok(spec_replace_first(text, old, new))
        }
    }
}

/// Applies one edit to the text.
pub fn apply_edit(text: &str, old_text: &str, new_text: &str) -> (r: Result<String, String>)
    ensures
        r matches Ok(s) ==> spec_edit_outcome(text@, old_text@, new_text@) matches Ok(t) && s@
            == t,
        r matches Err(m) ==> spec_edit_outcome(text@, old_text@, new_text@) matches Err(t) && m@
            == t,
{
    if old_text.unicode_len() == 0 {
        return Err(String::from_str("old_text must not be empty"));
    }
    let c = count_matches(text, old_text);
    if c == 0 {
        let m = String::from_str("old_text not found: ").concat(preview(old_text).as_str());
        return Err(m);
    }
    if c > 1 {
        let m = String::from_str("old_text matches ").concat(
            u64_to_string(c as u64).as_str(),
        ).concat(" locations (must be unique): ").concat(preview(old_text).as_str());
        proof {
            assert(m@ =~= ("old_text matches ")@ + dec_rep(c as int) + (
            " locations (must be unique): ")@ + spec_preview(old_text@));
        }
        return Err(m);
    }
    let i = match find_first(text, old_text) {
        Some(i) => i,
        None => {
            proof {
                lemma_first_match_spec(text@, old_text@);
                lemma_count_zero_of_no_match(text@, old_text@);
                assert(false);
            }
            return Err(String::new());
        },
    };
    proof {
        lemma_first_match_spec(text@, old_text@);
    }
    let n = text.unicode_len();
    let s = text.substring_char(0, i).to_owned().concat(new_text).concat(
        text.substring_char(i + old_text.unicode_len(), n),
    );
    proof {
        assert(text@.subrange(i + old_text@.len(), n as int) =~= text@.skip(
            i + old_text@.len(),
        ));
        assert(s@ =~= spec_replace_first(text@, old_text@, new_text@));
    }
    Ok(s)
}

/// When nothing matches, the count is zero.
proof fn lemma_count_zero_of_no_match(text: Seq<char>, pat: Seq<char>)
    requires
        pat.len() > 0,
        forall|k: int| !match_at(text, pat, k),
    ensures
        nonoverlap_count(text, pat) == 0,
    decreases text.len(),
{
    if text.len() < pat.len() {
    } else {
        assert(!match_at(text, pat, 0));
        assert(text.subrange(0, pat.len() as int) != pat);
        let t1 = text.skip(1);
        assert forall|k: int| true implies !match_at(t1, pat, k) by {
            if 0 <= k && k + pat.len() <= t1.len() {
                assert(text.subrange(k + 1, k + 1 + pat.len()) =~= t1.subrange(
                    k,
                    k + pat.len(),
                ));
                assert(!match_at(text, pat, k + 1));
            }
        }
        lemma_count_zero_of_no_match(t1, pat);
    }
}

/// The outcome of a sequence of edits, applied left to right, stopping at
/// the first failure.
pub open spec fn spec_edits_outcome(text: Seq<char>, edits: Seq<EditOperation>) -> Result<
    Seq<char>,
    Seq<char>,
>
    decreases edits.len(),
{
    if edits.len() == 0 {
        Ok(text)
    } else {
        match spec_edit_outcome(text, edits[0].old_text@, edits[0].new_text@) {
            Ok(t2) => spec_edits_outcome(t2, edits.skip(1)),
            Err(m) => Err(m),
        }
    }
}

/// Applies a sequence of edits to the text, left to right.
pub fn apply_edits(text: String, edits: &Vec<EditOperation>) -> (r: Result<String, String>)
    ensures
        r matches Ok(s) ==> spec_edits_outcome(text@, edits@) matches Ok(t) && s@ == t,
        r matches Err(m) ==> spec_edits_outcome(text@, edits@) matches Err(t) && m@ == t,
{
    let ghost orig = text@;
    let mut cur = text;
    let mut i: usize = 0;
    proof {
        assert(edits@.skip(0) =~= edits@);
    }
    while i < edits.len()
        invariant
            orig == text@,
            i <= edits@.len(),
            spec_edits_outcome(orig, edits@) == spec_edits_outcome(
                cur@,
                edits@.skip(i as int),
            ),
        decreases edits@.len() - i,
    {
        let ghost rest = edits@.skip(i as int);
        proof {
            assert(rest[0] == edits@[i as int]);
            assert(rest.skip(1) =~= edits@.skip(i as int + 1));
        }
        let e = &edits[i];
        match apply_edit(cur.as_str(), e.old_text.as_str(), e.new_text.as_str()) {
            Ok(next) => {
                cur = next;
            },
            Err(m) => {
                return Err(m);
            },
        }
        i += 1;
    }
    proof {
        assert(edits@.skip(edits@.len() as int).len() == 0);
    }
    Ok(cur)
}

/// What the unified diff of two texts under a header renders to; the
/// result depends on the texts and the header alone.
pub uninterp spec fn unified_diff_of(
    original: Seq<char>,
    updated: Seq<char>,
    header: Seq<char>,
) -> Seq<char>;

/// Relies on similar::TextDiff::from_lines and its unified-diff writer:
/// the rendered diff is a pure function of the two texts and the header
/// given for both sides.
#[verifier::external_body]
fn render_unified_diff(original: &str, updated: &str, header: &str) -> (r: String)
    ensures
        r@ == unified_diff_of(original@, updated@, header@),
{
    let diff = similar::TextDiff::from_lines(original, updated);
    let mut unified = diff.unified_diff();
    unified.header(header, header).to_string()
}

/// The report for a successful edit run.
pub open spec fn spec_edit_report(
    n_edits: int,
    canonical: Seq<char>,
    original: Seq<char>,
    updated: Seq<char>,
    raw_path: Seq<char>,
) -> Seq<char> {
    ("Applied ")@ + dec_rep(n_edits) + (" edit(s) to ")@ + canonical + ("\n\n")@
        + unified_diff_of(original, updated, raw_path)
}

/// Applies a sequence of edits to a file's content and renders the
/// outcome: the new content with a unified-diff report on success, the
/// edit-failure message otherwise.
pub fn edit_file_content(
    canonical: &str,
    path: &str,
    original: String,
    edits: &Vec<EditOperation>,
) -> (r: Result<(String, String), String>)
    ensures
        r matches Ok(pair) ==> {
            &&& spec_edits_outcome(original@, edits@) matches Ok(t)
            &&& pair.0@ == t
            &&& pair.1@ == spec_edit_report(edits@.len() as int, canonical@, original@, t, path@)
        },
        r matches Err(m) ==> {
            &&& spec_edits_outcome(original@, edits@) matches Err(t)
            &&& m@ == ("Edit failed on ")@ + path@ + (": ")@ + t
        },
{
    let snapshot = original.clone();
    match apply_edits(original, edits) {
        Err(reason) => {
            let e = FsError::EditFailed { path: path.to_owned(), reason };
            Err(e.message())
        },
        Ok(updated) => {
            let diff = render_unified_diff(snapshot.as_str(), updated.as_str(), path);
            let report = String::from_str("Applied ").concat(
                u64_to_string(edits.len() as u64).as_str(),
            ).concat(" edit(s) to ").concat(canonical).concat("\n\n").concat(diff.as_str());
            proof {
                assert(report@ =~= spec_edit_report(
                    edits@.len() as int,
                    canonical@,
                    original@,
                    updated@,
                    path@,
                ));
            }
            Ok((updated, report))
        },
    }
}

} // verus!
