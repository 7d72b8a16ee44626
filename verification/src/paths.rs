//! The path model: a path string is interpreted as a sequence of non-empty
//! components separated by `/`.  Containment of one path in another is a
//! component-wise prefix check, never a bare string prefix, so that
//! `/allowed2` is not considered to lie under `/allowed`.

use vstd::prelude::*;

verus! {

/// Emits the pending component, if any, as a one-element sequence.
pub open spec fn flush_segment(cur: Seq<char>) -> Seq<Seq<char>> {
    if cur.len() == 0 {
        Seq::empty()
    } else {
        seq![cur]
    }
}

/// Left-to-right split of `s` on `/`, with `cur` the component read so far.
/// Empty components (leading, trailing or doubled separators) are dropped.
pub open spec fn segments_rec(s: Seq<char>, cur: Seq<char>) -> Seq<Seq<char>>
    decreases s.len(),
{
    if s.len() == 0 {
        flush_segment(cur)
    } else if s[0] == '/' {
        flush_segment(cur) + segments_rec(s.skip(1), Seq::empty())
    } else {
        segments_rec(s.skip(1), cur.push(s[0]))
    }
}

/// The components of a path: `/a//b/` has components `["a", "b"]`.
pub open spec fn path_segments(s: Seq<char>) -> Seq<Seq<char>> {
    segments_rec(s, Seq::empty())
}

/// A path is absolute when it starts with the separator.
pub open spec fn is_absolute_path(s: Seq<char>) -> bool {
    s.len() > 0 && s[0] == '/'
}

/// A well-formed component: non-empty and free of separators.
pub open spec fn is_plain_segment(seg: Seq<char>) -> bool {
    seg.len() > 0 && (forall|i: int| 0 <= i < seg.len() ==> seg[i] != '/')
}

/// The two traversal components that creatable resolution rejects outright.
pub open spec fn is_special_segment(seg: Seq<char>) -> bool {
    seg == seq!['.'] || seg == seq!['.', '.']
}

/// Whether any component of the path is `.` or `..`.
pub open spec fn has_special_segment(s: Seq<char>) -> bool {
    exists|i: int|
        0 <= i < path_segments(s).len() && is_special_segment(#[trigger] path_segments(s)[i])
}

/// Sandbox containment: both paths are absolute and the components of `root`
/// are a prefix of the components of `p`.  A root contains itself.
pub open spec fn contained_in(p: Seq<char>, root: Seq<char>) -> bool {
    is_absolute_path(p) && is_absolute_path(root) && path_segments(root).is_prefix_of(
        path_segments(p),
    )
}

/// Joining a component onto a base path, inserting a separator unless the
/// base already ends with one.
pub open spec fn spec_join(base: Seq<char>, seg: Seq<char>) -> Seq<char> {
    if base.len() > 0 && base[base.len() - 1] == '/' {
        base + seg
    } else {
        base + seq!['/'] + seg
    }
}

proof fn lemma_segments_rec_slash(a: Seq<char>, b: Seq<char>, cur: Seq<char>)
    ensures
        segments_rec(a + seq!['/'] + b, cur) == segments_rec(a, cur) + segments_rec(
            b,
            Seq::empty(),
        ),
    decreases a.len(),
{
    let s = a + seq!['/'] + b;
    if a.len() == 0 {
        assert(s[0] == '/');
        assert(s.skip(1) =~= b);
        assert(segments_rec(s, cur) == flush_segment(cur) + segments_rec(b, Seq::empty()));
    } else if a[0] == '/' {
        assert(s[0] == '/');
        assert(s.skip(1) =~= a.skip(1) + seq!['/'] + b);
        lemma_segments_rec_slash(a.skip(1), b, Seq::empty());
        assert(segments_rec(s, cur) == flush_segment(cur) + (segments_rec(a.skip(1), Seq::empty())
            + segments_rec(b, Seq::empty())));
        assert(flush_segment(cur) + (segments_rec(a.skip(1), Seq::empty()) + segments_rec(
            b,
            Seq::empty(),
        )) =~= (flush_segment(cur) + segments_rec(a.skip(1), Seq::empty())) + segments_rec(
            b,
            Seq::empty(),
        ));
    } else {
        assert(s[0] == a[0]);
        assert(s.skip(1) =~= a.skip(1) + seq!['/'] + b);
        lemma_segments_rec_slash(a.skip(1), b, cur.push(a[0]));
    }
}

/// Splitting distributes over a separator: the components of `a + "/" + b`
/// are the components of `a` followed by the components of `b`.
pub proof fn lemma_path_segments_concat(a: Seq<char>, b: Seq<char>)
    ensures
        path_segments(a + seq!['/'] + b) == path_segments(a) + path_segments(b),
{
    lemma_segments_rec_slash(a, b, Seq::empty());
}

proof fn lemma_segments_rec_plain(seg: Seq<char>, cur: Seq<char>)
    requires
        forall|i: int| 0 <= i < seg.len() ==> seg[i] != '/',
    ensures
        segments_rec(seg, cur) == flush_segment(cur + seg),
    decreases seg.len(),
{
    if seg.len() == 0 {
        assert(cur + seg =~= cur);
    } else {
        assert(forall|i: int| 0 <= i < seg.skip(1).len() ==> seg.skip(1)[i] != '/');
        lemma_segments_rec_plain(seg.skip(1), cur.push(seg[0]));
        assert(cur.push(seg[0]) + seg.skip(1) =~= cur + seg);
    }
}

/// A separator-free, non-empty string is its own single component.
pub proof fn lemma_plain_segment_value(seg: Seq<char>)
    requires
        is_plain_segment(seg),
    ensures
        path_segments(seg) == seq![seg],
{
    lemma_segments_rec_plain(seg, Seq::empty());
    assert(Seq::<char>::empty() + seg =~= seg);
}

/// A trailing separator never changes the components of a path.
pub proof fn lemma_trailing_separator(s: Seq<char>)
    ensures
        path_segments(s.push('/')) == path_segments(s),
{
    assert(s.push('/') =~= s + seq!['/'] + Seq::<char>::empty());
    lemma_path_segments_concat(s, Seq::empty());
    assert(path_segments(Seq::<char>::empty()) == Seq::<Seq<char>>::empty());
    assert(path_segments(s) + Seq::<Seq<char>>::empty() =~= path_segments(s));
}

/// A trailing separator changes neither absoluteness nor containment of a
/// non-empty path.
pub proof fn lemma_trailing_separator_containment(p: Seq<char>, root: Seq<char>)
    requires
        p.len() > 0,
    ensures
        contained_in(p.push('/'), root) == contained_in(p, root),
{
    lemma_trailing_separator(p);
    assert(p.push('/')[0] == p[0]);
}

proof fn lemma_segments_rec_wf(s: Seq<char>, cur: Seq<char>)
    requires
        forall|i: int| 0 <= i < cur.len() ==> cur[i] != '/',
    ensures
        forall|i: int|
            0 <= i < segments_rec(s, cur).len() ==> is_plain_segment(
                #[trigger] segments_rec(s, cur)[i],
            ),
    decreases s.len(),
{
    if s.len() == 0 {
        assert(segments_rec(s, cur) == flush_segment(cur));
        if cur.len() > 0 {
            assert(is_plain_segment(cur));
            assert(forall|i: int|
                0 <= i < flush_segment(cur).len() ==> #[trigger] flush_segment(cur)[i] == cur);
        }
    } else if s[0] == '/' {
        lemma_segments_rec_wf(s.skip(1), Seq::empty());
        let fl = flush_segment(cur);
        let tail = segments_rec(s.skip(1), Seq::empty());
        if cur.len() > 0 {
            assert(is_plain_segment(cur));
        }
        assert forall|i: int| 0 <= i < segments_rec(s, cur).len() implies is_plain_segment(
            #[trigger] segments_rec(s, cur)[i],
        ) by {
            if i < fl.len() {
                assert(segments_rec(s, cur)[i] == cur);
            } else {
                assert(segments_rec(s, cur)[i] == tail[i - fl.len()]);
            }
        }
    } else {
        assert(forall|i: int|
            0 <= i < cur.push(s[0]).len() ==> cur.push(s[0])[i] != '/');
        lemma_segments_rec_wf(s.skip(1), cur.push(s[0]));
        assert(segments_rec(s, cur) == segments_rec(s.skip(1), cur.push(s[0])));
    }
}

/// The components of a join are the components of the base followed by the
/// joined component, and joining onto a non-empty base keeps absoluteness.
pub proof fn lemma_join_segments(base: Seq<char>, seg: Seq<char>)
    requires
        is_plain_segment(seg),
    ensures
        path_segments(spec_join(base, seg)) == path_segments(base) + seq![seg],
        base.len() > 0 ==> is_absolute_path(spec_join(base, seg)) == is_absolute_path(base),
{
    lemma_plain_segment_value(seg);
    if base.len() > 0 && base[base.len() - 1] == '/' {
        let head = base.drop_last();
        assert(base + seg =~= head + seq!['/'] + seg);
        lemma_path_segments_concat(head, seg);
        assert(base =~= head.push('/'));
        lemma_trailing_separator(head);
        assert(spec_join(base, seg)[0] == base[0]);
    } else {
        lemma_path_segments_concat(base, seg);
        if base.len() > 0 {
            assert(spec_join(base, seg)[0] == base[0]);
        }
    }
}

/// Containment is reflexive on absolute paths: a root contains itself.
pub proof fn lemma_contained_refl(p: Seq<char>)
    requires
        is_absolute_path(p),
    ensures
        contained_in(p, p),
{
    assert(path_segments(p) =~= path_segments(p).subrange(0, path_segments(p).len() as int));
}

/// Containment is transitive.
pub proof fn lemma_contained_trans(p: Seq<char>, mid: Seq<char>, root: Seq<char>)
    requires
        contained_in(p, mid),
        contained_in(mid, root),
    ensures
        contained_in(p, root),
{
    let sp = path_segments(p);
    let sm = path_segments(mid);
    let sr = path_segments(root);
    assert(sm =~= sp.subrange(0, sm.len() as int));
    assert(sr =~= sm.subrange(0, sr.len() as int));
    assert(sr =~= sp.subrange(0, sr.len() as int));
}

/// Joining a plain component onto a contained path stays contained.
pub proof fn lemma_join_containment(p: Seq<char>, root: Seq<char>, seg: Seq<char>)
    requires
        contained_in(p, root),
        is_plain_segment(seg),
    ensures
        contained_in(spec_join(p, seg), root),
{
    lemma_join_segments(p, seg);
    let before = path_segments(p);
    let after = path_segments(spec_join(p, seg));
    assert(path_segments(root) =~= before.subrange(0, path_segments(root).len() as int));
    assert(path_segments(root) =~= after.subrange(0, path_segments(root).len() as int));
}

/// Whether the path starts with the separator.
pub fn starts_with_separator(s: &str) -> (b: bool)
    ensures
        b == is_absolute_path(s@),
{
    if s.unicode_len() == 0 {
        false
    } else {
        s.get_char(0) == '/'
    }
}

/// Splits a path into its components, dropping empty ones.
pub fn split_segments(s: &str) -> (v: Vec<String>)
    ensures
        v@.map_values(|t: String| t@) == path_segments(s@),
        forall|i: int| 0 <= i < v@.len() ==> is_plain_segment(#[trigger] v@[i]@),
{
    let n = s.unicode_len();
    let mut v: Vec<String> = Vec::new();
    let mut start: usize = 0;
    let mut i: usize = 0;
    proof {
        assert(s@.skip(0) =~= s@);
        assert(s@.subrange(0, 0) =~= Seq::<char>::empty());
        assert(v@.map_values(|t: String| t@) =~= Seq::<Seq<char>>::empty());
        assert(Seq::<Seq<char>>::empty() + path_segments(s@) =~= path_segments(s@));
    }
    while i < n
        invariant
            n == s@.len(),
            start <= i <= n,
            path_segments(s@) == v@.map_values(|t: String| t@) + segments_rec(
                s@.skip(i as int),
                s@.subrange(start as int, i as int),
            ),
            forall|k: int| start <= k < i ==> s@[k] != '/',
            forall|k: int| 0 <= k < v@.len() ==> is_plain_segment(#[trigger] v@[k]@),
        decreases n - i,
    {
        let ghost rest = s@.skip(i as int);
        let ghost cur = s@.subrange(start as int, i as int);
        assert(rest[0] == s@[i as int]);
        assert(rest.skip(1) =~= s@.skip(i as int + 1));
        let c = s.get_char(i);
        if c == '/' {
            if i > start {
                let seg = s.substring_char(start, i).to_owned();
                proof {
                    assert(seg@ == cur);
                    assert(flush_segment(cur) =~= seq![cur]);
                    assert(v@.push(seg).map_values(|t: String| t@) =~= v@.map_values(
                        |t: String| t@,
                    ).push(seg@));
                    assert(v@.map_values(|t: String| t@) + (flush_segment(cur) + segments_rec(
                        rest.skip(1),
                        Seq::empty(),
                    )) =~= v@.map_values(|t: String| t@).push(seg@) + segments_rec(
                        rest.skip(1),
                        Seq::empty(),
                    ));
                }
                v.push(seg);
            } else {
                proof {
                    assert(cur.len() == 0);
                    assert(flush_segment(cur) =~= Seq::<Seq<char>>::empty());
                    assert(v@.map_values(|t: String| t@) + (flush_segment(cur) + segments_rec(
                        rest.skip(1),
                        Seq::empty(),
                    )) =~= v@.map_values(|t: String| t@) + segments_rec(
                        rest.skip(1),
                        Seq::empty(),
                    ));
                }
            }
            start = i + 1;
            proof {
                assert(s@.subrange(start as int, start as int) =~= Seq::<char>::empty());
            }
        } else {
            proof {
                assert(cur.push(s@[i as int]) =~= s@.subrange(start as int, i as int + 1));
            }
        }
        i += 1;
    }
    proof {
        assert(s@.skip(n as int) =~= Seq::<char>::empty());
    }
    if n > start {
        let seg = s.substring_char(start, n).to_owned();
        proof {
            let ghost cur = s@.subrange(start as int, n as int);
            assert(seg@ == cur);
            assert(flush_segment(cur) =~= seq![cur]);
            assert(v@.push(seg).map_values(|t: String| t@) =~= v@.map_values(
                |t: String| t@,
            ).push(seg@));
            assert(v@.map_values(|t: String| t@) + seq![cur] =~= v@.map_values(
                |t: String| t@,
            ).push(cur));
        }
        v.push(seg);
    } else {
        proof {
            let ghost cur = s@.subrange(start as int, n as int);
            assert(cur.len() == 0);
            assert(v@.map_values(|t: String| t@) + flush_segment(cur) =~= v@.map_values(
                |t: String| t@,
            ));
        }
    }
    v
}

/// Component-wise containment check of `path` under `root`.
pub fn is_contained_in(path: &str, root: &str) -> (b: bool)
    ensures
        b == contained_in(path@, root@),
{
    if !starts_with_separator(path) {
        return false;
    }
    if !starts_with_separator(root) {
        return false;
    }
    let ps = split_segments(path);
    let rs = split_segments(root);
    let ghost pseq = path_segments(path@);
    let ghost rseq = path_segments(root@);
    if rs.len() > ps.len() {
        proof {
            assert(rseq.len() == rs@.len());
            assert(pseq.len() == ps@.len());
            assert(!rseq.is_prefix_of(pseq));
        }
        return false;
    }
    let mut j: usize = 0;
    while j < rs.len()
        invariant
            j <= rs.len() <= ps.len(),
            pseq == path_segments(path@),
            rseq == path_segments(root@),
            ps@.map_values(|t: String| t@) == pseq,
            rs@.map_values(|t: String| t@) == rseq,
            rs@.len() == rseq.len(),
            ps@.len() == pseq.len(),
            forall|k: int| 0 <= k < j ==> rseq[k] == pseq[k],
        decreases rs.len() - j,
    {
        assert(rs@[j as int]@ == rseq[j as int]);
        assert(ps@[j as int]@ == pseq[j as int]);
        if !vec_string_eq(&rs, &ps, j) {
            proof {
                assert(rseq[j as int] != pseq[j as int]);
                assert(!rseq.is_prefix_of(pseq)) by {
                    if rseq.is_prefix_of(pseq) {
                        assert(rseq =~= pseq.subrange(0, rseq.len() as int));
                        assert(rseq[j as int] == pseq[j as int]);
                    }
                }
            }
            return false;
        }
        j += 1;
    }
    proof {
        assert(rseq =~= pseq.subrange(0, rseq.len() as int));
    }
    true
}

/// Compares the `j`-th elements of two string vectors.
fn vec_string_eq(a: &Vec<String>, b: &Vec<String>, j: usize) -> (r: bool)
    requires
        j < a@.len(),
        j < b@.len(),
    ensures
        r == (a@[j as int]@ == b@[j as int]@),
{
    let x: &String = &a[j];
    let y: &String = &b[j];
    *x == *y
}

/// Whether the component is the literal `.` or `..`.
pub fn is_special_component(seg: &String) -> (b: bool)
    ensures
        b == is_special_segment(seg@),
{
    let s = seg.as_str();
    let n = s.unicode_len();
    if n == 1 {
        let b = s.get_char(0) == '.';
        proof {
            if b {
                assert(seg@ =~= seq!['.']);
            }
        }
        b
    } else if n == 2 {
        let b = s.get_char(0) == '.' && s.get_char(1) == '.';
        proof {
            if b {
                assert(seg@ =~= seq!['.', '.']);
            }
        }
        b
    } else {
        false
    }
}

/// Rebuilds the string form of the first `k` components of a path, with a
/// leading separator exactly when `abs`.
pub fn rebuild_prefix(abs: bool, segs: &Vec<String>, k: usize) -> (r: String)
    requires
        k <= segs@.len(),
        forall|i: int| 0 <= i < segs@.len() ==> is_plain_segment(#[trigger] segs@[i]@),
    ensures
        path_segments(r@) == segs@.map_values(|t: String| t@).subrange(0, k as int),
        is_absolute_path(r@) == abs,
{
    proof {
        reveal_strlit("/");
    }
    let mut r: String = if abs {
        String::from_str("/")
    } else {
        String::new()
    };
    proof {
        if abs {
            assert(r@ =~= seq!['/']);
            assert(r@[0] == '/');
            assert(r@.skip(1) =~= Seq::<char>::empty());
            assert(segments_rec(Seq::<char>::empty(), Seq::<char>::empty())
                =~= Seq::<Seq<char>>::empty());
            assert(path_segments(r@) =~= flush_segment(Seq::<char>::empty()) + segments_rec(
                r@.skip(1),
                Seq::<char>::empty(),
            ));
            assert(path_segments(r@) =~= Seq::<Seq<char>>::empty());
        } else {
            assert(path_segments(r@) =~= Seq::<Seq<char>>::empty());
        }
        assert(segs@.map_values(|t: String| t@).subrange(0, 0) =~= Seq::<Seq<char>>::empty());
    }
    let mut j: usize = 0;
    while j < k
        invariant
            j <= k <= segs@.len(),
            forall|i: int| 0 <= i < segs@.len() ==> is_plain_segment(#[trigger] segs@[i]@),
            path_segments(r@) == segs@.map_values(|t: String| t@).subrange(0, j as int),
            is_absolute_path(r@) == abs,
            abs ==> r@.len() > 0,
            j > 0 ==> r@.len() > 0,
        decreases k - j,
    {
        let ghost base = r@;
        let ghost segview = segs@.map_values(|t: String| t@);
        if j == 0 && !abs {
            r = segs[0].clone();
            proof {
                lemma_plain_segment_value(r@);
                assert(segview.subrange(0, 1) =~= seq![segview[0]]);
                assert(!is_absolute_path(r@));
            }
        } else {
            proof {
                lemma_join_segments(base, segs@[j as int]@);
            }
            r = join_path(r.as_str(), segs[j].as_str());
            proof {
                assert(segview.subrange(0, j as int).push(segview[j as int]) =~= segview.subrange(
                    0,
                    j as int + 1,
                ));
                assert(path_segments(base) + seq![segs@[j as int]@] =~= path_segments(base).push(
                    segview[j as int],
                ));
            }
        }
        j += 1;
    }
    proof {
        assert(segs@.map_values(|t: String| t@).subrange(0, j as int) == segs@.map_values(
            |t: String| t@,
        ).subrange(0, k as int));
    }
    r
}

/// Joins a component onto a base path with a single separator.
pub fn join_path(base: &str, seg: &str) -> (r: String)
    ensures
        r@ == spec_join(base@, seg@),
{
    proof {
        reveal_strlit("/");
    }
    let n = base.unicode_len();
    if n > 0 && base.get_char(n - 1) == '/' {
        base.to_owned().concat(seg)
    } else {
        let r = base.to_owned().concat("/").concat(seg);
        proof {
            assert(base@ + "/"@ + seg@ =~= base@ + seq!['/'] + seg@);
        }
        r
    }
}

} // verus!
