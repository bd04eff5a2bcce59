//! Sandboxed path resolution.
//!
//! An untrusted request path is percent-decoded, joined under the sandbox
//! root, and checked for containment after canonicalization.  The
//! filesystem's answers (existence, canonical form, directory bit) arrive
//! as a [`Probe`] value, so every decision taken here is verified for
//! every possible answer, symlinks pointing outside the root included.
//!
//! Paths are modelled as sequences of name segments, each a plain byte
//! string.

use vstd::prelude::*;

verus! {

/// Startup configuration, as plain values (the CLI parser that fills it
/// is a collaborator).
#[derive(Debug, Clone)]
pub struct Args {
    /// Directory to serve instead of the working directory.
    pub dir: Option<String>,
    /// Bind host.
    pub host: String,
    /// Bind port.
    pub port: u16,
    /// Don't open a browser at startup.
    pub no_open: bool,
    /// Verbose logging.
    pub verbose: bool,
    /// Trace logging.
    pub trace: bool,
    /// Allow directory traversal: permit resolving descendants of the
    /// sandbox root rather than only the root itself.
    pub traverse: bool,
}

/// View of a list of segments as a sequence of byte strings.
pub open spec fn segs_view(v: Seq<Vec<u8>>) -> Seq<Seq<u8>> {
    Seq::new(v.len(), |i: int| v[i]@)
}

/// An absolute filesystem path, as the sequence of its name segments
/// (the root directory itself is the empty sequence).
#[derive(Debug, Clone)]
pub struct AbsPath {
    pub segments: Vec<Vec<u8>>,
}

impl View for AbsPath {
    type V = Seq<Seq<u8>>;

    open spec fn view(&self) -> Seq<Seq<u8>> {
        segs_view(self.segments@)
    }
}

/// What the filesystem reported about the joined path: absent, or present
/// with its canonical form (`None` when canonicalization itself failed,
/// in which case the joined path stands in for it) and its directory bit.
pub enum Probe {
    Missing,
    Present { canonical: Option<AbsPath>, is_dir: bool },
}

/// The end of the segment starting at `i`: the first index at or after
/// `i` holding `/`, or the end of the string.
pub open spec fn spec_seg_end(s: Seq<u8>, i: int) -> int
    decreases s.len() - i,
{
    if i < 0 || i >= s.len() {
        i
    } else if s[i] == 47u8 {
        i
    } else {
        spec_seg_end(s, i + 1)
    }
}

/// The segments of `s` from position `i` on, split on `/` with empty
/// pieces dropped (so absolute, relative and doubled-slash spellings all
/// yield the same segments).
pub open spec fn spec_split_from(s: Seq<u8>, i: int) -> Seq<Seq<u8>>
    decreases s.len() - i,
{
    if i < 0 || i >= s.len() {
        Seq::empty()
    } else if s[i] == 47u8 {
        spec_split_from(s, i + 1)
    } else {
        let j = spec_seg_end(s, i);
        if i < j <= s.len() {
            seq![s.subrange(i, j)] + spec_split_from(s, j)
        } else {
            Seq::empty()
        }
    }
}

/// The segments of a requested path.
pub open spec fn spec_split(s: Seq<u8>) -> Seq<Seq<u8>> {
    spec_split_from(s, 0)
}

/// The requested path joined under the root: its segments appended to the
/// root's.  A leading root marker on the request disappears here, so an
/// OS-absolute request cannot escape by plain concatenation.
pub open spec fn spec_joined(root: Seq<Seq<u8>>, decoded: Seq<u8>) -> Seq<Seq<u8>> {
    root + spec_split(decoded)
}

/// The parent directory: one segment fewer; the root directory is its own
/// parent.
pub open spec fn spec_parent(p: Seq<Seq<u8>>) -> Seq<Seq<u8>> {
    if p.len() > 0 {
        p.drop_last()
    } else {
        p
    }
}

/// Whether `p` is `root` itself or a descendant of it.
pub open spec fn spec_is_prefix(root: Seq<Seq<u8>>, p: Seq<Seq<u8>>) -> bool {
    root.len() <= p.len() && p.take(root.len() as int) == root
}

/// The candidate path of a present probe: the canonical form (or the
/// joined path when canonicalization failed), degraded to its parent
/// directory when a non-directory result is not allowed.
pub open spec fn spec_candidate(
    joined: Seq<Seq<u8>>,
    canonical: Option<AbsPath>,
    is_dir: bool,
    allow_nondir: bool,
) -> Seq<Seq<u8>> {
    let c = match canonical {
        Some(p) => p@,
        None => joined,
    };
    if !allow_nondir && !is_dir {
        spec_parent(c)
    } else {
        c
    }
}

/// What resolution must return: nothing for an absent path; otherwise the
/// candidate, but only if traversal is allowed or the candidate is the
/// root itself, and only if the candidate stays inside the root.
pub open spec fn spec_resolve(
    decoded: Seq<u8>,
    traverse: bool,
    root: Seq<Seq<u8>>,
    probe: Probe,
    allow_nondir: bool,
) -> Option<Seq<Seq<u8>>> {
    match probe {
        Probe::Missing => None,
        Probe::Present { canonical, is_dir } => {
            let cand = spec_candidate(spec_joined(root, decoded), canonical, is_dir, allow_nondir);
            if !traverse && cand != root {
                None
            } else if spec_is_prefix(root, cand) {
                Some(cand)
            } else {
                None
            }
        },
    }
}

/// What the percent-decoder returns: the decoded bytes, or nothing on
/// malformed input.
pub uninterp spec fn percent_decoded(s: Seq<char>) -> Option<Seq<u8>>;

/// Relies on urlencoding::decode: the result depends on the input
/// characters alone; an input without `%` always decodes, and an ASCII
/// input without `%` decodes to its own code points.
#[verifier::external_body]
fn decode_percent(s: &str) -> (r: Option<Vec<u8>>)
    ensures
        r matches Some(b) ==> percent_decoded(s@) == Some(b@),
        r is None ==> percent_decoded(s@) is None,
        (forall|i: int| 0 <= i < s@.len() ==> s@[i] != '%') ==> r is Some,
{
    match urlencoding::decode(s) {
        Ok(d) => Some(d.into_owned().into_bytes()),
        Err(_) => None,
    }
}

/// Percent-decode a raw request path into bytes.
///
/// Malformed input yields `None`, an explicit error result surfaced to
/// the caller rather than a crash.
pub fn decode_request(raw: &str) -> (r: Option<Vec<u8>>)
    ensures
        r matches Some(b) ==> percent_decoded(raw@) == Some(b@),
        r is None ==> percent_decoded(raw@) is None,
        (forall|i: int| 0 <= i < raw@.len() ==> raw@[i] != '%') ==> r is Some,
{
    decode_percent(raw)
}

/// `spec_seg_end` is exactly the scan that stops at the first `/`.
proof fn lemma_seg_end_at(s: Seq<u8>, start: int, end: int)
    requires
        0 <= start <= end <= s.len(),
        forall|k: int| start <= k < end ==> s[k] != 47u8,
        end == s.len() || s[end] == 47u8,
    ensures
        spec_seg_end(s, start) == end,
    decreases end - start,
{
    if start < end {
        lemma_seg_end_at(s, start + 1, end);
    }
}

/// Compare two byte strings.
pub fn bytes_eq(a: &Vec<u8>, b: &Vec<u8>) -> (r: bool)
    ensures
        r <==> a@ == b@,
{
    if a.len() != b.len() {
        proof {
            assert(a@ != b@) by {
                if a@ == b@ {
                    assert(a@.len() == b@.len());
                }
            }
        }
        return false;
    }
    let mut i: usize = 0;
    while i < a.len()
        invariant
            i <= a@.len(),
            a@.len() == b@.len(),
            forall|k: int| 0 <= k < i ==> a@[k] == b@[k],
        decreases a@.len() - i,
    {
        if a[i] != b[i] {
            proof {
                assert(a@ != b@) by {
                    if a@ == b@ {
                        assert(a@[i as int] == b@[i as int]);
                    }
                }
            }
            return false;
        }
        i += 1;
    }
    proof {
        assert(a@ =~= b@);
    }
    true
}

/// Compare two paths segment by segment.
pub fn path_eq(a: &AbsPath, b: &AbsPath) -> (r: bool)
    ensures
        r <==> a@ == b@,
{
    if a.segments.len() != b.segments.len() {
        proof {
            assert(a@ != b@) by {
                if a@ == b@ {
                    assert(a@.len() == b@.len());
                }
            }
        }
        return false;
    }
    let mut i: usize = 0;
    while i < a.segments.len()
        invariant
            i <= a.segments@.len(),
            a.segments@.len() == b.segments@.len(),
            forall|k: int| 0 <= k < i ==> a@[k] == b@[k],
        decreases a.segments@.len() - i,
    {
        if !bytes_eq(&a.segments[i], &b.segments[i]) {
            proof {
                assert(a@[i as int] != b@[i as int]);
                assert(a@ != b@) by {
                    if a@ == b@ {
                        assert(a@[i as int] == b@[i as int]);
                    }
                }
            }
            return false;
        }
        i += 1;
    }
    proof {
        assert(a@ =~= b@);
    }
    true
}

/// Whether `p` is the root or one of its descendants.
pub fn path_has_prefix(p: &AbsPath, root: &AbsPath) -> (r: bool)
    ensures
        r <==> spec_is_prefix(root@, p@),
{
    if p.segments.len() < root.segments.len() {
        proof {
            assert(p@.len() < root@.len());
        }
        return false;
    }
    let mut i: usize = 0;
    while i < root.segments.len()
        invariant
            i <= root.segments@.len(),
            root.segments@.len() <= p.segments@.len(),
            forall|k: int| 0 <= k < i ==> p@[k] == root@[k],
        decreases root.segments@.len() - i,
    {
        if !bytes_eq(&p.segments[i], &root.segments[i]) {
            proof {
                assert(p@[i as int] != root@[i as int]);
                assert(!spec_is_prefix(root@, p@)) by {
                    if p@.take(root@.len() as int) == root@ {
                        assert(p@.take(root@.len() as int)[i as int] == root@[i as int]);
                        assert(p@.take(root@.len() as int)[i as int] == p@[i as int]);
                    }
                }
            }
            return false;
        }
        i += 1;
    }
    proof {
        assert(p@.take(root@.len() as int) =~= root@);
    }
    true
}

/// Split a requested path into its segments.
pub fn split_segments(s: &Vec<u8>) -> (r: Vec<Vec<u8>>)
    ensures
        segs_view(r@) == spec_split(s@),
{
    let mut out: Vec<Vec<u8>> = Vec::new();
    let mut i: usize = 0;
    while i < s.len()
        invariant
            i <= s@.len(),
            spec_split(s@) == segs_view(out@) + spec_split_from(s@, i as int),
        decreases s@.len() - i,
    {
        if s[i] == 47 {
            i += 1;
        } else {
            let ghost start = i as int;
            let ghost out0 = out@;
            let mut seg: Vec<u8> = Vec::new();
            while i < s.len() && s[i] != 47
                invariant
                    0 <= start <= i <= s@.len(),
                    start < s@.len() && s@[start] != 47u8,
                    seg@ == s@.subrange(start, i as int),
                    forall|k: int| start <= k < i ==> s@[k] != 47u8,
                decreases s@.len() - i,
            {
                seg.push(s[i]);
                proof {
                    assert(s@.subrange(start, i + 1) =~= s@.subrange(start, i as int).push(
                    s@[i as int]));
                }
                i += 1;
            }
            proof {
                lemma_seg_end_at(s@, start, i as int);
                assert(spec_split_from(s@, start) == seq![s@.subrange(start, i as int)]
                    + spec_split_from(s@, i as int));
            }
            out.push(seg);
            proof {
                assert(segs_view(out@) =~= segs_view(out0).push(seg@));
                assert(segs_view(out0).push(seg@) + spec_split_from(s@, i as int) =~= segs_view(
                out0) + (seq![seg@] + spec_split_from(s@, i as int)));
            }
        }
    }
    proof {
        assert(segs_view(out@) + spec_split_from(s@, i as int) =~= segs_view(out@));
    }
    out
}

/// Join a decoded request under the root.
pub fn join_request(root: &AbsPath, decoded: &Vec<u8>) -> (r: AbsPath)
    ensures
        r@ == spec_joined(root@, decoded@),
{
    let mut segs: Vec<Vec<u8>> = Vec::new();
    let mut i: usize = 0;
    while i < root.segments.len()
        invariant
            i <= root.segments@.len(),
            segs_view(segs@) == root@.take(i as int),
        decreases root.segments@.len() - i,
    {
        let ghost segs0 = segs@;
        let seg = root.segments[i].clone();
        proof {
            assert(seg@ =~= root.segments@[i as int]@);
        }
        segs.push(seg);
        proof {
            assert(segs_view(segs@) =~= segs_view(segs0).push(seg@));
            assert(segs_view(segs0).push(seg@) =~= root@.take(i + 1));
        }
        i += 1;
    }
    proof {
        assert(root@.take(root.segments@.len() as int) =~= root@);
    }
    let ghost segs1 = segs@;
    let mut rest = split_segments(decoded);
    let ghost rest0 = rest@;
    segs.append(&mut rest);
    proof {
        assert(segs_view(segs@) =~= segs_view(segs1) + segs_view(rest0));
    }
    AbsPath { segments: segs }
}

/// Resolve a decoded request path against the sandbox root `pwd`.
///
/// The request is joined under the root; `probe` carries what the
/// filesystem said about that joined path.  An absent path resolves to
/// nothing.  The candidate is the canonical form (falling back to the
/// joined path when canonicalization failed), degraded to its parent when
/// `allow_nondir` is false and the candidate is not a directory.  Unless
/// `args.traverse` is set, only the root itself resolves; and in every
/// mode the candidate must be the root or a descendant of it — the
/// containment check runs on the canonical form, after symlinks were
/// resolved, never before.
pub fn canonicalize_path(
    path: &Vec<u8>,
    args: &Args,
    pwd: &AbsPath,
    probe: Probe,
    allow_nondir: bool,
) -> (r: Option<AbsPath>)
    ensures
        (match r {
            Some(p) => spec_resolve(path@, args.traverse, pwd@, probe, allow_nondir) == Some(p@),
            None => spec_resolve(path@, args.traverse, pwd@, probe, allow_nondir) is None,
        }),
        r matches Some(p) ==> spec_is_prefix(pwd@, p@),
        !args.traverse ==> (r matches Some(p) ==> p@ == pwd@),
{
    match probe {
        Probe::Missing => None,
        Probe::Present { canonical, is_dir } => {
            let mut cand: AbsPath = match canonical {
                Some(c) => c,
                None => join_request(pwd, path),
            };
            if !allow_nondir && !is_dir {
                if cand.segments.len() > 0 {
                    let ghost cand0 = cand.segments@;
                    let _ = cand.segments.pop();
                    proof {
                        assert(segs_view(cand0.drop_last()) =~= segs_view(cand0).drop_last());
                    }
                }
            }
            let at_root = path_eq(&cand, pwd);
            if !args.traverse && !at_root {
                return None;
            }
            if path_has_prefix(&cand, pwd) {
                Some(cand)
            } else {
                None
            }
        },
    }
}

/// Containment: whatever the request holds — parent segments, encoded
/// traversal sequences — and whatever the filesystem reports, a resolved
/// path is the sandbox root or a descendant of it.  Symlinks pointing
/// outward only change the probe's canonical form, which this covers.
pub proof fn lemma_resolve_contained(
    decoded: Seq<u8>,
    traverse: bool,
    root: Seq<Seq<u8>>,
    probe: Probe,
    allow_nondir: bool,
)
    ensures
        spec_resolve(decoded, traverse, root, probe, allow_nondir) matches Some(p)
            ==> spec_is_prefix(root, p),
{
}

/// Resolving the root itself, reported as an existing directory
/// canonical to itself, succeeds and returns the root — with traversal
/// disabled as much as enabled.
pub proof fn lemma_resolve_root(
    decoded: Seq<u8>,
    traverse: bool,
    root: Seq<Seq<u8>>,
    canonical: AbsPath,
    allow_nondir: bool,
)
    requires
        canonical@ == root,
    ensures
        spec_resolve(
            decoded,
            traverse,
            root,
            Probe::Present { canonical: Some(canonical), is_dir: true },
            allow_nondir,
        ) == Some(root),
{
    assert(spec_is_prefix(root, root)) by {
        assert(root.take(root.len() as int) =~= root);
    }
}

/// With traversal disabled, any path whose canonical form is not the root
/// itself resolves to nothing, however far inside the sandbox it lies.
pub proof fn lemma_resolve_nonroot_refused(
    decoded: Seq<u8>,
    root: Seq<Seq<u8>>,
    canonical: AbsPath,
)
    requires
        canonical@ != root,
    ensures
        spec_resolve(
            decoded,
            false,
            root,
            Probe::Present { canonical: Some(canonical), is_dir: true },
            true,
        ) is None,
{
}

/// Idempotence: a directory that canonicalizes to itself and lies inside
/// the sandbox resolves, under traversal, to exactly that path.
pub proof fn lemma_resolve_idempotent(
    decoded: Seq<u8>,
    root: Seq<Seq<u8>>,
    canonical: AbsPath,
    allow_nondir: bool,
)
    requires
        spec_is_prefix(root, canonical@),
    ensures
        spec_resolve(
            decoded,
            true,
            root,
            Probe::Present { canonical: Some(canonical), is_dir: true },
            allow_nondir,
        ) == Some(canonical@),
{
}

} // verus!
