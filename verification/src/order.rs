//! Lexicographic ordering of names, and sorting of directory entries and
//! rendered lines, so that listings come out in a stable, reproducible
//! order.

use vstd::prelude::*;

verus! {

use crate::fsops::DirEntryInfo;
use vstd::multiset::Multiset;

broadcast use vstd::seq_lib::group_to_multiset_ensures, vstd::multiset::group_multiset_axioms;

/// Lexicographic order on character sequences by code point; this is also
/// the byte order of their UTF-8 encodings.
pub open spec fn lex_le(a: Seq<char>, b: Seq<char>) -> bool
    decreases a.len(),
{
    if a.len() == 0 {
        true
    } else if b.len() == 0 {
        false
    } else if a[0] == b[0] {
        lex_le(a.skip(1), b.skip(1))
    } else {
        (a[0] as int) < (b[0] as int)
    }
}

/// The order is total: of any two sequences, one is less-or-equal the
/// other.
pub proof fn lemma_lex_le_total(a: Seq<char>, b: Seq<char>)
    ensures
        lex_le(a, b) || lex_le(b, a),
    decreases a.len(),
{
    if a.len() == 0 {
        assert(lex_le(a, b));
    } else if b.len() == 0 {
        assert(lex_le(b, a));
    } else if a[0] == b[0] {
        lemma_lex_le_total(a.skip(1), b.skip(1));
    } else {
        assert(a[0] as int != b[0] as int);
    }
}

/// The order is transitive.
pub proof fn lemma_lex_le_trans(a: Seq<char>, b: Seq<char>, c: Seq<char>)
    requires
        lex_le(a, b),
        lex_le(b, c),
    ensures
        lex_le(a, c),
    decreases a.len(),
{
    if a.len() == 0 {
    } else if b.len() == 0 {
        assert(false);
    } else if c.len() == 0 {
        assert(false);
    } else {
        if a[0] == b[0] && b[0] == c[0] {
            lemma_lex_le_trans(a.skip(1), b.skip(1), c.skip(1));
        }
    }
}

/// Compares two strings in the lexicographic order of their characters.
pub fn str_le(a: &str, b: &str) -> (r: bool)
    ensures
        r == lex_le(a@, b@),
{
    let na = a.unicode_len();
    let nb = b.unicode_len();
    let mut i: usize = 0;
    proof {
        assert(a@.skip(0) =~= a@);
        assert(b@.skip(0) =~= b@);
    }
    while i < na && i < nb
        invariant
            na == a@.len(),
            nb == b@.len(),
            i <= na,
            i <= nb,
            lex_le(a@, b@) == lex_le(a@.skip(i as int), b@.skip(i as int)),
        decreases na - i,
    {
        let ghost ra = a@.skip(i as int);
        let ghost rb = b@.skip(i as int);
        assert(ra[0] == a@[i as int]);
        assert(rb[0] == b@[i as int]);
        let ca = a.get_char(i);
        let cb = b.get_char(i);
        if ca != cb {
            return ca < cb;
        }
        proof {
            assert(ra.skip(1) =~= a@.skip(i as int + 1));
            assert(rb.skip(1) =~= b@.skip(i as int + 1));
        }
        i += 1;
    }
    proof {
        if i >= na {
            assert(a@.skip(i as int).len() == 0);
        } else {
            assert(b@.skip(i as int).len() == 0);
            assert(a@.skip(i as int).len() > 0);
        }
    }
    na <= nb
}

/// Directory entries in non-decreasing order of name.
pub open spec fn entries_sorted(s: Seq<DirEntryInfo>) -> bool {
    forall|i: int, j: int|
        0 <= i < j < s.len() ==> lex_le(#[trigger] s[i].name@, #[trigger] s[j].name@)
}

/// Strings in non-decreasing order.
pub open spec fn strings_sorted(s: Seq<String>) -> bool {
    forall|i: int, j: int| 0 <= i < j < s.len() ==> lex_le(#[trigger] s[i]@, #[trigger] s[j]@)
}

/// Character sequences in non-decreasing order.
pub open spec fn views_sorted(s: Seq<Seq<char>>) -> bool {
    forall|i: int, j: int| 0 <= i < j < s.len() ==> lex_le(#[trigger] s[i], #[trigger] s[j])
}

/// Inserting an element anywhere in a sequence adds it to the multiset of
/// elements.
pub proof fn lemma_insert_to_multiset<A>(s: Seq<A>, pos: int, elt: A)
    requires
        0 <= pos <= s.len(),
    ensures
        s.insert(pos, elt).to_multiset() == s.to_multiset().insert(elt),
{
    let s2 = s.insert(pos, elt);
    assert(s2.remove(pos) =~= s);
    assert(s2[pos] == elt);
    assert(s2.remove(pos).to_multiset() =~= s2.to_multiset().remove(elt));
    assert(s2.contains(elt));
    assert(s2.to_multiset().count(elt) > 0);
    assert(s2.to_multiset() =~= s.to_multiset().insert(elt));
}

/// Inserts an entry into a name-sorted vector, keeping it sorted.
fn sorted_insert_entry(v: &mut Vec<DirEntryInfo>, x: DirEntryInfo)
    requires
        entries_sorted(old(v)@),
    ensures
        entries_sorted(final(v)@),
        final(v)@.to_multiset() == old(v)@.to_multiset().insert(x),
        final(v)@.len() == old(v)@.len() + 1,
{
    let mut k: usize = 0;
    let mut go = true;
    while go && k < v.len()
        invariant
            k <= v@.len(),
            v@ == old(v)@,
            forall|i: int| 0 <= i < k ==> lex_le(#[trigger] v@[i].name@, x.name@),
            !go ==> k < v@.len() && lex_le(x.name@, v@[k as int].name@),
        decreases v@.len() - k, (if go { 1int } else { 0int }),
    {
        if str_le(v[k].name.as_str(), x.name.as_str()) {
            k += 1;
        } else {
            proof {
                lemma_lex_le_total(v@[k as int].name@, x.name@);
            }
            go = false;
        }
    }
    let ghost before = v@;
    v.insert(k, x);
    proof {
        lemma_insert_to_multiset(before, k as int, x);
        before.insert_ensures(k as int, x);
        assert forall|i: int, j: int| 0 <= i < j < v@.len() implies lex_le(
            #[trigger] v@[i].name@,
            #[trigger] v@[j].name@,
        ) by {
            if j < k {
            } else if i < k && j == k {
            } else if i < k && j > k {
            } else if i == k {
                assert(j > k);
                assert(v@[j] == before[j - 1]);
                assert(!go);
                if j - 1 > k {
                    lemma_lex_le_trans(x.name@, before[k as int].name@, before[j - 1].name@);
                }
            } else {
            }
        }
    }
}

/// Sorts directory entries by name; the result holds exactly the same
/// entries.
pub fn sort_entries_by_name(v: Vec<DirEntryInfo>) -> (r: Vec<DirEntryInfo>)
    ensures
        entries_sorted(r@),
        r@.to_multiset() == v@.to_multiset(),
        r@.len() == v@.len(),
{
    let ghost total = v@.to_multiset();
    let mut rest = v;
    let mut out: Vec<DirEntryInfo> = Vec::new();
    proof {
        assert(out@.to_multiset() =~= Multiset::<DirEntryInfo>::empty());
    }
    while rest.len() > 0
        invariant
            entries_sorted(out@),
            out@.to_multiset().add(rest@.to_multiset()) == total,
            out@.len() + rest@.len() == total.len(),
        decreases rest@.len(),
    {
        let ghost prev = rest@;
        let x = match rest.pop() {
            Some(x) => x,
            None => {
                proof {
                    assert(false);
                }
                continue;
            },
        };
        proof {
            assert(prev =~= rest@.push(x));
            assert(prev.to_multiset() == rest@.to_multiset().insert(x));
        }
        let ghost out_prev = out@;
        sorted_insert_entry(&mut out, x);
        proof {
            assert(out@.to_multiset().add(rest@.to_multiset()) =~= out_prev.to_multiset().add(
                prev.to_multiset(),
            ));
        }
    }
    proof {
        assert(rest@.to_multiset() =~= Multiset::<DirEntryInfo>::empty());
        assert(out@.to_multiset() =~= total);
    }
    out
}

/// Inserts a string into a sorted vector, keeping it sorted.
fn sorted_insert_string(v: &mut Vec<String>, x: String)
    requires
        strings_sorted(old(v)@),
    ensures
        strings_sorted(final(v)@),
        final(v)@.to_multiset() == old(v)@.to_multiset().insert(x),
        final(v)@.map_values(|s: String| s@).to_multiset() == old(v)@.map_values(
            |s: String| s@,
        ).to_multiset().insert(x@),
        final(v)@.len() == old(v)@.len() + 1,
{
    let mut k: usize = 0;
    let mut go = true;
    while go && k < v.len()
        invariant
            k <= v@.len(),
            v@ == old(v)@,
            forall|i: int| 0 <= i < k ==> lex_le(#[trigger] v@[i]@, x@),
            !go ==> k < v@.len() && lex_le(x@, v@[k as int]@),
        decreases v@.len() - k, (if go { 1int } else { 0int }),
    {
        if str_le(v[k].as_str(), x.as_str()) {
            k += 1;
        } else {
            proof {
                lemma_lex_le_total(v@[k as int]@, x@);
            }
            go = false;
        }
    }
    let ghost before = v@;
    v.insert(k, x);
    proof {
        lemma_insert_to_multiset(before, k as int, x);
        before.insert_ensures(k as int, x);
        let viewfn = |s: String| s@;
        assert(v@.map_values(viewfn) =~= before.map_values(viewfn).insert(k as int, x@));
        lemma_insert_to_multiset(before.map_values(viewfn), k as int, x@);
        assert forall|i: int, j: int| 0 <= i < j < v@.len() implies lex_le(
            #[trigger] v@[i]@,
            #[trigger] v@[j]@,
        ) by {
            if j < k {
            } else if i < k && j == k {
            } else if i < k && j > k {
            } else if i == k {
                assert(j > k);
                assert(v@[j] == before[j - 1]);
                assert(!go);
                if j - 1 > k {
                    lemma_lex_le_trans(x@, before[k as int]@, before[j - 1]@);
                }
            } else {
            }
        }
    }
}

/// Sorts strings lexicographically; the result holds exactly the same
/// strings.
pub fn sort_strings(v: Vec<String>) -> (r: Vec<String>)
    ensures
        strings_sorted(r@),
        r@.to_multiset() == v@.to_multiset(),
        r@.map_values(|s: String| s@).to_multiset() == v@.map_values(|s: String| s@).to_multiset(),
        r@.len() == v@.len(),
{
    let ghost viewfn = |s: String| s@;
    let ghost total = v@.to_multiset();
    let ghost total_views = v@.map_values(viewfn).to_multiset();
    let mut rest = v;
    let mut out: Vec<String> = Vec::new();
    proof {
        assert(out@.to_multiset() =~= Multiset::<String>::empty());
        assert(out@.map_values(viewfn) =~= Seq::<Seq<char>>::empty());
        assert(out@.map_values(viewfn).to_multiset() =~= Multiset::<Seq<char>>::empty());
    }
    while rest.len() > 0
        invariant
            viewfn == (|s: String| s@),
            strings_sorted(out@),
            out@.to_multiset().add(rest@.to_multiset()) == total,
            out@.map_values(viewfn).to_multiset().add(rest@.map_values(viewfn).to_multiset())
                == total_views,
            out@.len() + rest@.len() == total.len(),
        decreases rest@.len(),
    {
        let ghost prev = rest@;
        let x = match rest.pop() {
            Some(x) => x,
            None => {
                proof {
                    assert(false);
                }
                continue;
            },
        };
        proof {
            assert(prev =~= rest@.push(x));
            assert(prev.to_multiset() == rest@.to_multiset().insert(x));
            assert(prev.map_values(viewfn) =~= rest@.map_values(viewfn).push(x@));
            assert(prev.map_values(viewfn).to_multiset() == rest@.map_values(
                viewfn,
            ).to_multiset().insert(x@));
        }
        let ghost out_prev = out@;
        sorted_insert_string(&mut out, x);
        proof {
            assert(out@.to_multiset().add(rest@.to_multiset()) =~= out_prev.to_multiset().add(
                prev.to_multiset(),
            ));
            assert(out@.map_values(viewfn).to_multiset().add(
                rest@.map_values(viewfn).to_multiset(),
            ) =~= out_prev.map_values(viewfn).to_multiset().add(
                prev.map_values(viewfn).to_multiset(),
            ));
        }
    }
    proof {
        assert(rest@.to_multiset() =~= Multiset::<String>::empty());
        assert(out@.to_multiset() =~= total);
        assert(rest@.map_values(viewfn) =~= Seq::<Seq<char>>::empty());
        assert(rest@.map_values(viewfn).to_multiset() =~= Multiset::<Seq<char>>::empty());
        assert(out@.map_values(viewfn).to_multiset() =~= total_views);
    }
    out
}

} // verus!
