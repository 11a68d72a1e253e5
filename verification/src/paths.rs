//! Request-path logic: splitting a URL path into segments, lexically
//! normalizing it (`.` and empty segments vanish, `..` pops), and joining the
//! normalized segments under the served root. A path whose normalization
//! would climb above the root is the escape case that the server forbids.

use vstd::prelude::*;
use vstd::string::StrSliceExecFns;

verus! {

/// The segments of `s` split on `'/'`. Splitting the empty sequence gives one
/// empty segment, as `str::split` does.
pub open spec fn spec_split(s: Seq<char>) -> Seq<Seq<char>>
    decreases s.len(),
{
    if s.len() == 0 {
        seq![Seq::<char>::empty()]
    } else {
        let rest = spec_split(s.drop_last());
        if s.last() == '/' {
            rest.push(Seq::<char>::empty())
        } else {
            rest.update(rest.len() - 1, rest.last().push(s.last()))
        }
    }
}

/// The segment `.`: the directory itself.
pub open spec fn is_dot(s: Seq<char>) -> bool {
    s.len() == 1 && s[0] == '.'
}

/// The segment `..`: the parent directory.
pub open spec fn is_dot_dot(s: Seq<char>) -> bool {
    s.len() == 2 && s[0] == '.' && s[1] == '.'
}

/// Folds the segments left to right into a stack of plain segments: empty and
/// `.` segments are dropped, `..` pops the stack, and popping an empty stack
/// means the path escapes above the root (`None`).
pub open spec fn spec_norm(segs: Seq<Seq<char>>) -> Option<Seq<Seq<char>>>
    decreases segs.len(),
{
    if segs.len() == 0 {
        Some(Seq::<Seq<char>>::empty())
    } else {
        match spec_norm(segs.drop_last()) {
            None => None,
            Some(stack) => {
                let s = segs.last();
                if s.len() == 0 || is_dot(s) {
                    Some(stack)
                } else if is_dot_dot(s) {
                    if stack.len() == 0 {
                        None
                    } else {
                        Some(stack.drop_last())
                    }
                } else {
                    Some(stack.push(s))
                }
            },
        }
    }
}

/// The lexical normalization of a request path: its plain segments relative
/// to the root, or `None` when the path escapes above the root.
pub open spec fn spec_normalize(p: Seq<char>) -> Option<Seq<Seq<char>>> {
    spec_norm(spec_split(p))
}

/// Once a prefix of the segments escapes, the whole path escapes.
proof fn lemma_norm_none_persists(segs: Seq<Seq<char>>, n: int)
    requires
        0 <= n <= segs.len(),
        spec_norm(segs.take(n)) is None,
    ensures
        spec_norm(segs) is None,
    decreases segs.len() - n,
{
    if n < segs.len() {
        assert(segs.take(n + 1).drop_last() =~= segs.take(n));
        lemma_norm_none_persists(segs, n + 1);
    } else {
        assert(segs.take(n) =~= segs);
    }
}

/// Relies on `String::push`: appends the one character to the string.
#[verifier::external_body]
fn push_char(s: &mut String, c: char)
    ensures
        final(s)@ == old(s)@.push(c),
{
    s.push(c);
}

/// Splits a path on `'/'`, exactly as `spec_split` describes.
fn split_path(p: &str) -> (r: Vec<String>)
    ensures
        r@.map_values(|s: String| s@) =~= spec_split(p@),
{
    let n: usize = p.unicode_len();
    let mut r: Vec<String> = Vec::new();
    r.push(String::new());
    let mut i: usize = 0;
    while i < n
        invariant
            i <= n,
            n == p@.len(),
            r@.len() >= 1,
            r@.map_values(|s: String| s@) =~= spec_split(p@.take(i as int)),
        decreases n - i,
    {
        let c = p.get_char(i);
        assert(p@.take(i + 1).drop_last() =~= p@.take(i as int));
        assert(p@.take(i + 1).last() == p@[i as int]);
        if c == '/' {
            r.push(String::new());
        } else {
            let mut last = r.pop().unwrap();
            push_char(&mut last, c);
            r.push(last);
        }
        assert(r@.map_values(|s: String| s@) =~= spec_split(p@.take(i + 1)));
        i = i + 1;
    }
    proof {
        assert(p@.take(n as int) =~= p@);
    }
    r
}

/// Normalizes a request path into its plain segments relative to the served
/// root; `None` means the path escapes above the root and must be refused.
pub fn normalize_request(p: &str) -> (r: Option<Vec<String>>)
    ensures
        match r {
            Some(v) => spec_normalize(p@) == Some(v@.map_values(|s: String| s@)),
            None => spec_normalize(p@) is None,
        },
{
    let segs = split_path(p);
    let ghost gsegs = segs@.map_values(|s: String| s@);
    proof {
        assert(gsegs =~= spec_split(p@));
    }
    let mut stack: Vec<String> = Vec::new();
    let mut i: usize = 0;
    while i < segs.len()
        invariant
            i <= segs@.len(),
            gsegs == segs@.map_values(|s: String| s@),
            gsegs == spec_split(p@),
            spec_norm(gsegs.take(i as int)) == Some(stack@.map_values(|s: String| s@)),
        decreases segs@.len() - i,
    {
        let s: &String = &segs[i];
        let slen = s.as_str().unicode_len();
        let empty_or_dot = slen == 0 || (slen == 1 && s.as_str().get_char(0) == '.');
        let dot_dot = slen == 2 && s.as_str().get_char(0) == '.' && s.as_str().get_char(1) == '.';
        proof {
            assert(gsegs.take(i + 1).drop_last() =~= gsegs.take(i as int));
            assert(gsegs.take(i + 1).last() == s@);
        }
        if empty_or_dot {
        } else if dot_dot {
            if stack.len() == 0 {
                proof {
                    assert(spec_norm(gsegs.take(i + 1)) is None);
                    lemma_norm_none_persists(gsegs, i + 1);
                }
                return None;
            }
            let ghost old_stack = stack@;
            stack.pop();
            proof {
                assert(stack@.map_values(|s: String| s@) =~= old_stack.map_values(
                    |s: String| s@,
                ).drop_last());
            }
        } else {
            let ghost old_stack = stack@;
            stack.push(s.clone());
            proof {
                assert(stack@.map_values(|s: String| s@) =~= old_stack.map_values(
                    |s: String| s@,
                ).push(s@));
            }
        }
        i = i + 1;
    }
    proof {
        assert(gsegs.take(i as int) =~= gsegs);
    }
    Some(stack)
}

/// What the filesystem holds at a resolved location, as the caller observed
/// it: nothing, a directory, or anything else (served as a file).
#[derive(Clone, Copy, PartialEq, Eq, Structural)]
pub enum FsNode {
    Missing,
    Directory,
    File,
}

/// The classification of a request path against the served root.
#[derive(Clone, Copy, PartialEq, Eq, Structural)]
pub enum Resolution {
    Missing,
    Forbidden,
    Directory,
    File,
}

/// The classification of a request path: a path whose normalization escapes
/// the root is Forbidden whatever the filesystem holds; a contained path is
/// classified by the filesystem entry at its resolved location.
pub open spec fn spec_resolve(p: Seq<char>, node: FsNode) -> Resolution {
    if spec_normalize(p) is None {
        Resolution::Forbidden
    } else {
        match node {
            FsNode::Missing => Resolution::Missing,
            FsNode::Directory => Resolution::Directory,
            FsNode::File => Resolution::File,
        }
    }
}

/// Classifies a request path, given what the filesystem holds at its
/// resolved location. The containment check is lexical, on the normalized
/// path, so traversal segments cannot slip past it.
pub fn resolve(p: &str, node: FsNode) -> (r: Resolution)
    ensures
        r == spec_resolve(p@, node),
{
    match normalize_request(p) {
        None => Resolution::Forbidden,
        Some(_) => match node {
            FsNode::Missing => Resolution::Missing,
            FsNode::Directory => Resolution::Directory,
            FsNode::File => Resolution::File,
        },
    }
}

/// A request path whose normalized join with the root lies outside the root
/// is classified Forbidden, whatever the filesystem holds at any location:
/// the classification that the dispatcher answers with status 403.
pub proof fn lemma_escaping_path_forbidden(p: Seq<char>, node: FsNode)
    requires
        spec_normalize(p) is None,
    ensures
        spec_resolve(p, node) is Forbidden,
{
}

/// A contained request path with no filesystem entry at its resolved
/// location is classified Missing, never Forbidden: the classification that
/// the dispatcher answers with status 404.
pub proof fn lemma_missing_inside_root(p: Seq<char>)
    requires
        spec_normalize(p) is Some,
    ensures
        spec_resolve(p, FsNode::Missing) is Missing,
{
}

/// The root followed by each segment behind a `'/'` separator.
pub open spec fn spec_join(root: Seq<char>, segs: Seq<Seq<char>>) -> Seq<char>
    decreases segs.len(),
{
    if segs.len() == 0 {
        root
    } else {
        spec_join(root, segs.drop_last()) + seq!['/'] + segs.last()
    }
}

/// Joining segments under the root only ever appends: the root stays a prefix
/// of the joined path, which is the containment that the server enforces.
pub proof fn lemma_join_keeps_root_prefix(root: Seq<char>, segs: Seq<Seq<char>>)
    ensures
        spec_join(root, segs).len() >= root.len(),
        spec_join(root, segs).take(root.len() as int) =~= root,
    decreases segs.len(),
{
    if segs.len() > 0 {
        lemma_join_keeps_root_prefix(root, segs.drop_last());
    }
}

/// A normalized path holds plain names only: no empty, `.` or `..` segment is
/// left, so the joined path cannot climb out of the root lexically.
pub proof fn lemma_normalized_segments_plain(segs: Seq<Seq<char>>, stack: Seq<Seq<char>>)
    requires
        spec_norm(segs) == Some(stack),
    ensures
        forall|k: int|
            0 <= k < stack.len() ==> stack[k].len() > 0 && !is_dot(#[trigger] stack[k])
                && !is_dot_dot(stack[k]),
    decreases segs.len(),
{
    if segs.len() > 0 {
        let prev = spec_norm(segs.drop_last());
        lemma_normalized_segments_plain(segs.drop_last(), prev.unwrap());
    }
}

/// Builds the filesystem path for a contained request: the root, then each
/// segment behind a `'/'`.
pub fn join_under_root(root: &str, segs: &Vec<String>) -> (r: String)
    ensures
        r@ == spec_join(root@, segs@.map_values(|s: String| s@)),
{
    let ghost gsegs = segs@.map_values(|s: String| s@);
    let mut r: String = root.to_owned();
    let mut i: usize = 0;
    proof {
        reveal_strlit("/");
        assert(gsegs.take(0) =~= Seq::<Seq<char>>::empty());
    }
    while i < segs.len()
        invariant
            i <= segs@.len(),
            gsegs == segs@.map_values(|s: String| s@),
            r@ == spec_join(root@, gsegs.take(i as int)),
        decreases segs@.len() - i,
    {
        r.append("/");
        r.append(segs[i].as_str());
        proof {
            reveal_strlit("/");
            assert("/"@ =~= seq!['/']);
            assert(gsegs.take(i + 1).drop_last() =~= gsegs.take(i as int));
            assert(gsegs.take(i + 1).last() == gsegs[i as int]);
        }
        i = i + 1;
    }
    proof {
        assert(gsegs.take(i as int) =~= gsegs);
    }
    r
}

} // verus!
