//! The path resolver: the single authority deciding whether a
//! caller-supplied path may be touched, and what canonical on-disk path the
//! operation should actually use.
//!
//! Every successful resolution is proven to return a path whose components
//! lie under one of the sandbox roots.  What the operating system reports
//! about the disk (canonical forms, existence, entry types) enters only
//! through the trusted wrappers in [`crate::fsops`]; the decisions taken on
//! those reports are verified here for every possible report.

use vstd::prelude::*;

verus! {

use crate::error::FsError;
use crate::fsops::{canonicalize_path, path_exists, path_is_dir, path_is_file};
use crate::paths::{
    contained_in,
    has_special_segment,
    is_absolute_path,
    is_contained_in,
    is_plain_segment,
    is_special_component,
    is_special_segment,
    join_path,
    lemma_join_containment,
    path_segments,
    rebuild_prefix,
    spec_join,
    split_segments,
    starts_with_separator,
};

/// What the caller requires of the target of a resolution.
pub enum ResolutionIntent {
    /// The target must exist on disk, of any type.
    MustExist,
    /// The target must exist and be a regular file.
    MustBeFile,
    /// The target must exist and be a directory.
    MustBeDirectory,
    /// The target may or may not be present; its parent must be locatable.
    MayNotExist,
    /// The target and its ancestor chain may not exist yet.
    Creatable,
}

/// The authorization outcome for an already-canonical path: the path itself
/// when it lies under one of the roots, nothing otherwise.
pub open spec fn spec_authorize(roots: Seq<Seq<char>>, p: Seq<char>) -> Option<Seq<char>> {
    if exists|i: int| 0 <= i < roots.len() && contained_in(p, #[trigger] roots[i]) {
        Some(p)
    } else {
        None
    }
}

/// Authorization is idempotent: the path returned by a successful
/// authorization authorizes again, to the same path and the same
/// classification.
pub proof fn lemma_authorize_idempotent(roots: Seq<Seq<char>>, p: Seq<char>)
    ensures
        spec_authorize(roots, p) matches Some(q) ==> spec_authorize(roots, q) == spec_authorize(
            roots,
            p,
        ),
{
}

/// A canonical path that lies under one of the sandbox roots always
/// authorizes, and to itself.
pub proof fn lemma_contained_authorizes(roots: Seq<Seq<char>>, p: Seq<char>, i: int)
    requires
        0 <= i < roots.len(),
        contained_in(p, roots[i]),
    ensures
        spec_authorize(roots, p) == Some(p),
{
}

/// A canonical path that lies under none of the sandbox roots is always
/// refused.
pub proof fn lemma_uncontained_refused(roots: Seq<Seq<char>>, p: Seq<char>)
    requires
        forall|i: int| 0 <= i < roots.len() ==> !contained_in(p, #[trigger] roots[i]),
    ensures
        spec_authorize(roots, p) is None,
{
}

/// A trailing separator never changes the authorization outcome of a
/// non-empty path: it is authorized with the separator exactly when it is
/// authorized without it.
pub proof fn lemma_trailing_separator_authorize(roots: Seq<Seq<char>>, p: Seq<char>)
    requires
        p.len() > 0,
    ensures
        spec_authorize(roots, p.push('/')) is Some <==> spec_authorize(roots, p) is Some,
{
    assert forall|i: int| 0 <= i < roots.len() implies contained_in(p.push('/'), #[trigger] roots[i])
        == contained_in(p, roots[i]) by {
        crate::paths::lemma_trailing_separator_containment(p, roots[i]);
    }
}

/// The sandbox: an immutable set of pre-canonicalized absolute root
/// directories, fixed for the process lifetime.
pub struct SecurityContext {
    allowed_dirs: Vec<String>,
}

impl SecurityContext {
    /// The component views of the sandbox roots.
    pub closed spec fn roots(&self) -> Seq<Seq<char>> {
        self.allowed_dirs@.map_values(|d: String| d@)
    }

    /// Whether `p` lies under (or is) one of the sandbox roots.
    pub open spec fn path_allowed(&self, p: Seq<char>) -> bool {
        spec_authorize(self.roots(), p) is Some
    }

    /// Creates a new SecurityContext. All directories must already be
    /// canonicalized.
    pub fn new(allowed_dirs: Vec<String>) -> (ctx: Self)
        ensures
            ctx.roots() == allowed_dirs@.map_values(|d: String| d@),
    {
        SecurityContext { allowed_dirs }
    }

    /// The canonical sandbox roots, for display.
    pub fn allowed_directories(&self) -> (r: &Vec<String>)
        ensures
            r@.map_values(|d: String| d@) == self.roots(),
    {
        &self.allowed_dirs
    }

    /// Whether the given path lies under one of the sandbox roots.
    fn allows(&self, path: &str) -> (b: bool)
        ensures
            b == self.path_allowed(path@),
    {
        let mut i: usize = 0;
        while i < self.allowed_dirs.len()
            invariant
                i <= self.allowed_dirs@.len(),
                self.roots() == self.allowed_dirs@.map_values(|d: String| d@),
                forall|k: int| 0 <= k < i ==> !contained_in(path@, #[trigger] self.roots()[k]),
            decreases self.allowed_dirs@.len() - i,
        {
            if is_contained_in(path, self.allowed_dirs[i].as_str()) {
                assert(contained_in(path@, self.roots()[i as int]));
                return true;
            }
            i += 1;
        }
        false
    }

    /// Authorizes an already-canonical path: success exactly when the path
    /// lies under one of the roots, `PathDenied` carrying the raw path
    /// otherwise.
    pub fn check_canonical(&self, canonical: String, raw: &str) -> (r: Result<String, FsError>)
        ensures
            self.path_allowed(canonical@) ==> {
                &&& r matches Ok(p)
                &&& p@ == canonical@
            },
            !self.path_allowed(canonical@) ==> {
                &&& r matches Err(e)
                &&& e matches FsError::PathDenied { path }
                &&& path@ == raw@
            },
    {
        if self.allows(canonical.as_str()) {
            Ok(canonical)
        } else {
            Err(FsError::PathDenied { path: raw.to_owned() })
        }
    }

    /// Authorizes the canonical parent of a target that does not exist yet
    /// and re-appends the final component: success exactly when the parent
    /// lies under one of the roots, and then the result does too.
    pub fn check_parent_child(
        &self,
        canonical_parent: String,
        name: &String,
        raw: &str,
    ) -> (r: Result<String, FsError>)
        requires
            is_plain_segment(name@),
        ensures
            self.path_allowed(canonical_parent@) ==> {
                &&& r matches Ok(p)
                &&& p@ == spec_join(canonical_parent@, name@)
                &&& self.path_allowed(p@)
            },
            !self.path_allowed(canonical_parent@) ==> {
                &&& r matches Err(e)
                &&& e matches FsError::PathDenied { path }
                &&& path@ == raw@
            },
    {
        if self.allows(canonical_parent.as_str()) {
            proof {
                let i = choose|i: int|
                    0 <= i < self.roots().len() && contained_in(
                        canonical_parent@,
                        #[trigger] self.roots()[i],
                    );
                lemma_join_containment(canonical_parent@, self.roots()[i], name@);
            }
            Ok(join_path(canonical_parent.as_str(), name.as_str()))
        } else {
            Err(FsError::PathDenied { path: raw.to_owned() })
        }
    }

    /// Splits a path into the string form of its parent and its final
    /// component.  Nothing comes back when the path has no component at
    /// all or its final component is `.` or `..`.
    fn split_parent(path: &str) -> (r: Option<(String, String)>)
        ensures
            r matches Some(pair) ==> {
                &&& is_plain_segment(pair.1@)
                &&& path_segments(path@).len() > 0
                &&& pair.1@ == path_segments(path@).last()
                &&& path_segments(pair.0@) == path_segments(path@).drop_last()
                &&& is_absolute_path(pair.0@) == is_absolute_path(path@)
            },
    {
        let segs = split_segments(path);
        let n = segs.len();
        if n == 0 {
            return None;
        }
        if is_special_component(&segs[n - 1]) {
            return None;
        }
        let abs = starts_with_separator(path);
        let parent = rebuild_prefix(abs, &segs, n - 1);
        let ghost segview = segs@.map_values(|t: String| t@);
        proof {
            assert(segview.subrange(0, n as int - 1) =~= path_segments(path@).drop_last());
            assert(segview[n as int - 1] == path_segments(path@).last());
        }
        let name = segs[n - 1].clone();
        Some((parent, name))
    }

    /// Canonicalizes the input path and checks it falls within an allowed
    /// directory.  Works for both existing and not-yet-existing targets:
    /// when the target cannot be canonicalized, its parent is canonicalized
    /// and the final component re-appended.  Every success is contained in
    /// a sandbox root.
    pub fn validate_path(&self, path: &str) -> (r: Result<String, FsError>)
        ensures
            r matches Ok(p) ==> self.path_allowed(p@),
            r matches Err(e) ==> (e is PathDenied || e is NotFound),
            r matches Err(e) ==> (e matches FsError::PathDenied { path: q } ==> q@ == path@),
    {
        match canonicalize_path(path) {
            Ok(c) => self.check_canonical(c, path),
            Err(_) => {
                match Self::split_parent(path) {
                    None => Err(FsError::PathDenied { path: path.to_owned() }),
                    Some((parent, name)) => {
                        match canonicalize_path(parent.as_str()) {
                            Ok(cp) => self.check_parent_child(cp, &name, path),
                            Err(_) => Err(FsError::NotFound { path: parent }),
                        }
                    },
                }
            },
        }
    }

    /// Validates the path is within allowed directories and currently
    /// exists on disk.
    pub fn validate_path_exists(&self, path: &str) -> (r: Result<String, FsError>)
        ensures
            r matches Ok(p) ==> self.path_allowed(p@),
            r matches Err(e) ==> (e is PathDenied || e is NotFound),
            r matches Err(e) ==> (e matches FsError::PathDenied { path: q } ==> q@ == path@),
    {
        match self.validate_path(path) {
            Err(e) => Err(e),
            Ok(c) => {
                if path_exists(c.as_str()) {
                    Ok(c)
                } else {
                    Err(FsError::NotFound { path: path.to_owned() })
                }
            },
        }
    }

    /// Validates the path is allowed, exists, and is a regular file.
    pub fn validate_file(&self, path: &str) -> (r: Result<String, FsError>)
        ensures
            r matches Ok(p) ==> self.path_allowed(p@),
            r matches Err(e) ==> (e is PathDenied || e is NotFound || e is NotAFile),
            r matches Err(e) ==> (e matches FsError::PathDenied { path: q } ==> q@ == path@),
            r matches Err(e) ==> (e matches FsError::NotAFile { path: q } ==> q@ == path@),
    {
        match self.validate_path_exists(path) {
            Err(e) => Err(e),
            Ok(c) => {
                if path_is_file(c.as_str()) {
                    Ok(c)
                } else {
                    Err(FsError::NotAFile { path: path.to_owned() })
                }
            },
        }
    }

    /// Validates the path is allowed, exists, and is a directory.
    pub fn validate_directory(&self, path: &str) -> (r: Result<String, FsError>)
        ensures
            r matches Ok(p) ==> self.path_allowed(p@),
            r matches Err(e) ==> (e is PathDenied || e is NotFound || e is NotADirectory),
            r matches Err(e) ==> (e matches FsError::PathDenied { path: q } ==> q@ == path@),
            r matches Err(e) ==> (e matches FsError::NotADirectory { path: q } ==> q@ == path@),
    {
        match self.validate_path_exists(path) {
            Err(e) => Err(e),
            Ok(c) => {
                if path_is_dir(c.as_str()) {
                    Ok(c)
                } else {
                    Err(FsError::NotADirectory { path: path.to_owned() })
                }
            },
        }
    }

    /// Whether `p` is `base` with the last `path_segments(raw).len() - k`
    /// raw components re-appended in their original order, for an allowed
    /// `base`.
    pub open spec fn reassembled_from(
        &self,
        p: Seq<char>,
        raw: Seq<char>,
        base: Seq<char>,
        k: int,
    ) -> bool {
        &&& self.path_allowed(base)
        &&& 0 <= k <= path_segments(raw).len()
        &&& path_segments(p) == path_segments(base) + path_segments(raw).skip(k)
    }

    /// Whether `p` is some allowed canonical ancestor with a tail of the
    /// raw path's components re-appended in order.
    pub open spec fn spec_reassembly(&self, p: Seq<char>, raw: Seq<char>) -> bool {
        exists|base: Seq<char>, k: int| #[trigger] self.reassembled_from(p, raw, base, k)
    }

    /// Validates a path for recursive directory creation.
    ///
    /// Any literal `.` or `..` component in the raw path is rejected
    /// outright, before the operating system could normalize it away.
    /// Otherwise the walk peels components until an existing ancestor is
    /// found, canonicalizes that ancestor, checks its containment, and
    /// re-appends the peeled tail: every success is an allowed canonical
    /// ancestor followed by a tail of the raw components in original
    /// order, and is itself contained.
    pub fn validate_creatable_path(&self, path: &str) -> (r: Result<String, FsError>)
        ensures
            r matches Ok(p) ==> self.path_allowed(p@) && !has_special_segment(path@)
                && self.spec_reassembly(p@, path@),
            has_special_segment(path@) ==> {
                &&& r matches Err(e)
                &&& e matches FsError::PathDenied { path: q }
                &&& q@ == path@
            },
            r matches Err(e) ==> (e is PathDenied || e is NotFound),
    {
        let segs = split_segments(path);
        let ghost segview = segs@.map_values(|t: String| t@);
        let n = segs.len();
        let mut i: usize = 0;
        while i < n
            invariant
                i <= n == segs@.len(),
                segview == segs@.map_values(|t: String| t@),
                segview == path_segments(path@),
                forall|k: int| 0 <= k < i ==> !is_special_segment(#[trigger] segview[k]),
                forall|k: int| 0 <= k < segs@.len() ==> is_plain_segment(#[trigger] segs@[k]@),
            decreases n - i,
        {
            if is_special_component(&segs[i]) {
                assert(is_special_segment(segview[i as int]));
                return Err(FsError::PathDenied { path: path.to_owned() });
            }
            i += 1;
        }
        assert(!has_special_segment(path@));
        let abs = starts_with_separator(path);
        match Self::find_existing_prefix(abs, &segs, n) {
            None => Err(FsError::NotFound { path: path.to_owned() }),
            Some((base, kk)) => {
                match canonicalize_path(base.as_str()) {
                    Err(_) => Err(FsError::NotFound { path: base }),
                    Ok(cb) => {
                        if !self.allows(cb.as_str()) {
                            return Err(FsError::PathDenied { path: path.to_owned() });
                        }
                        let ghost base = cb@;
                        let mut result = cb;
                        let mut j: usize = kk;
                        proof {
                            assert(segview.subrange(kk as int, kk as int) =~= Seq::<
                                Seq<char>,
                            >::empty());
                            assert(path_segments(base) + segview.subrange(
                                kk as int,
                                kk as int,
                            ) =~= path_segments(base));
                        }
                        while j < n
                            invariant
                                kk <= j <= n == segs@.len(),
                                segview == segs@.map_values(|t: String| t@),
                                segview == path_segments(path@),
                                forall|k: int|
                                    0 <= k < segs@.len() ==> is_plain_segment(
                                        #[trigger] segs@[k]@,
                                    ),
                                self.path_allowed(base),
                                self.path_allowed(result@),
                                path_segments(result@) == path_segments(base)
                                    + segview.subrange(kk as int, j as int),
                            decreases n - j,
                        {
                            proof {
                                let w = choose|w: int|
                                    0 <= w < self.roots().len() && contained_in(
                                        result@,
                                        #[trigger] self.roots()[w],
                                    );
                                lemma_join_containment(result@, self.roots()[w], segs@[j as int]@);
                                crate::paths::lemma_join_segments(result@, segs@[j as int]@);
                            }
                            let ghost before = result@;
                            result = join_path(result.as_str(), segs[j].as_str());
                            proof {
                                assert(path_segments(base) + segview.subrange(
                                    kk as int,
                                    j as int,
                                ) + seq![segview[j as int]] =~= path_segments(base)
                                    + segview.subrange(kk as int, j as int + 1));
                            }
                            j += 1;
                        }
                        proof {
                            assert(segview.subrange(kk as int, n as int) =~= path_segments(
                                path@,
                            ).skip(kk as int));
                            assert(self.reassembled_from(result@, path@, base, kk as int));
                            assert(self.spec_reassembly(result@, path@));
                        }
                        Ok(result)
                    },
                }
            },
        }
    }

    /// Walks upward from the `k`-component prefix of the path until a
    /// prefix exists on disk, handing back its string form and length: the
    /// returned string is exactly the prefix of that many components.
    fn find_existing_prefix(abs: bool, segs: &Vec<String>, k: usize) -> (r: Option<(String, usize)>)
        requires
            k <= segs@.len(),
            forall|i: int| 0 <= i < segs@.len() ==> is_plain_segment(#[trigger] segs@[i]@),
        ensures
            r matches Some(pair) ==> {
                &&& pair.1 <= k
                &&& path_segments(pair.0@) == segs@.map_values(|t: String| t@).subrange(
                    0,
                    pair.1 as int,
                )
                &&& is_absolute_path(pair.0@) == abs
            },
        decreases k,
    {
        let candidate = rebuild_prefix(abs, segs, k);
        if path_exists(candidate.as_str()) {
            Some((candidate, k))
        } else if k == 0 {
            None
        } else {
            Self::find_existing_prefix(abs, segs, k - 1)
        }
    }

    /// The single logical operation of the resolver: authorizes `path` for
    /// the given intent and hands back the canonical path the operation
    /// should touch, or a typed rejection.
    pub fn resolve(&self, path: &str, intent: ResolutionIntent) -> (r: Result<String, FsError>)
        ensures
            r matches Ok(p) ==> self.path_allowed(p@),
            intent is Creatable && has_special_segment(path@) ==> {
                &&& r matches Err(e)
                &&& e matches FsError::PathDenied { path: q }
                &&& q@ == path@
            },
    {
        match intent {
            ResolutionIntent::MustExist => self.validate_path_exists(path),
            ResolutionIntent::MustBeFile => self.validate_file(path),
            ResolutionIntent::MustBeDirectory => self.validate_directory(path),
            ResolutionIntent::MayNotExist => self.validate_path(path),
            ResolutionIntent::Creatable => self.validate_creatable_path(path),
        }
    }
}

} // verus!
