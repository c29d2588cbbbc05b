//! Turning a resolution into a serving plan: traversal protection,
//! directory index handling, and the SPA fallback of the default root.

use crate::bytes::{append_bytes, is_prefix};
use crate::routes::{
    lemma_default_root_fallback, spec_strip_slash, Resolution, ResolutionV, RouteTable,
};
use vstd::prelude::*;

verus! {

/// `index.html`, the file served for a directory path.
pub open spec fn index_name() -> Seq<u8> {
    seq![
        ('i' as u8),
        ('n' as u8),
        ('d' as u8),
        ('e' as u8),
        ('x' as u8),
        ('.' as u8),
        ('h' as u8),
        ('t' as u8),
        ('m' as u8),
        ('l' as u8),
    ]
}

/// The server root directory, `.`.
pub open spec fn root_dir() -> Seq<u8> {
    seq![('.' as u8)]
}

/// `./index.html`, the not-found fallback of the default root mount.
pub open spec fn root_fallback() -> Seq<u8> {
    seq![('.' as u8), ('/' as u8)] + index_name()
}

/// A `..` path segment starts at `i` in `s`.
pub open spec fn is_dotdot_at(s: Seq<u8>, i: int) -> bool {
    &&& 0 <= i
    &&& i + 2 <= s.len()
    &&& s[i] == ('.' as u8)
    &&& s[i + 1] == ('.' as u8)
    &&& (i == 0 || s[i - 1] == ('/' as u8))
    &&& (i + 2 == s.len() || s[i + 2] == ('/' as u8))
}

/// The path holds a `..` segment somewhere: it may climb out of the
/// mount target and is rejected.
pub open spec fn has_dotdot_segment(s: Seq<u8>) -> bool {
    exists|i: int| is_dotdot_at(s, i)
}

/// Scans for a `..` segment.
pub fn has_traversal(s: &[u8]) -> (r: bool)
    ensures
        r == has_dotdot_segment(s@),
{
    if s.len() < 2 {
        return false;
    }
    let mut i: usize = 0;
    while i <= s.len() - 2
        invariant
            s@.len() >= 2,
            i <= s@.len() - 1,
            forall|j: int| 0 <= j < i ==> !is_dotdot_at(s@, j),
        decreases s@.len() - i,
    {
        if s[i] == ('.' as u8) && s[i + 1] == ('.' as u8) && (i == 0 || s[i - 1] == ('/' as u8))
            && (i + 2 == s.len() || s[i + 2] == ('/' as u8)) {
            proof {
                assert(is_dotdot_at(s@, i as int));
            }
            return true;
        }
        proof {
            assert(!is_dotdot_at(s@, i as int));
        }
        i += 1;
    }
    proof {
        assert(forall|j: int| j >= i ==> !is_dotdot_at(s@, j));
    }
    false
}

/// `dir` and `rel` joined with a single `/`.
pub open spec fn spec_join(dir: Seq<u8>, rel: Seq<u8>) -> Seq<u8> {
    dir + seq![('/' as u8)] + rel
}

/// The file looked up for a relative path under a directory target: a
/// path naming a directory (empty, or ending in `/`) looks up its
/// `index.html`.
pub open spec fn spec_dir_rel(rel: Seq<u8>) -> Seq<u8> {
    if rel.len() == 0 || rel[rel.len() - 1] == ('/' as u8) {
        rel + index_name()
    } else {
        rel
    }
}

/// Spec-level picture of the plan handed to the file-serving shell.
pub enum ServePlanV {
    /// Serve this file; a missing file is a not-found response.
    Exact { path: Seq<u8> },
    /// Serve `path`; when it is missing, serve `fallback` in its place
    /// with the original request's response semantics (the SPA rule of
    /// the default root).
    WithFallback { path: Seq<u8>, fallback: Seq<u8> },
    /// Answer not-found without touching the filesystem.
    NotFound,
}

/// The plan handed to the file-serving shell.
#[derive(Debug, PartialEq, Eq)]
pub enum ServePlan {
    Exact { path: Vec<u8> },
    WithFallback { path: Vec<u8>, fallback: Vec<u8> },
    NotFound,
}

impl View for ServePlan {
    type V = ServePlanV;

    open spec fn view(&self) -> ServePlanV {
        match self {
            ServePlan::Exact { path } => ServePlanV::Exact { path: path@ },
            ServePlan::WithFallback { path, fallback } => ServePlanV::WithFallback {
                path: path@,
                fallback: fallback@,
            },
            ServePlan::NotFound => ServePlanV::NotFound,
        }
    }
}

/// What is served for a resolution: a file mount serves its target as
/// it is; a directory mount serves the remainder under its target,
/// rejecting `..` traversal; the default root does the same under the
/// server root and adds the `./index.html` fallback; no route is a
/// not-found.
pub open spec fn spec_plan(r: ResolutionV) -> ServePlanV {
    match r {
        ResolutionV::File { target } => ServePlanV::Exact { path: target },
        ResolutionV::Directory { target, remainder } => if has_dotdot_segment(remainder) {
            ServePlanV::NotFound
        } else {
            ServePlanV::Exact { path: spec_join(target, spec_dir_rel(remainder)) }
        },
        ResolutionV::DefaultRoot { remainder } => if has_dotdot_segment(remainder) {
            ServePlanV::NotFound
        } else {
            ServePlanV::WithFallback {
                path: spec_join(root_dir(), spec_dir_rel(remainder)),
                fallback: root_fallback(),
            }
        },
        ResolutionV::NoRoute => ServePlanV::NotFound,
    }
}

/// Appends `index.html`.
fn append_index(dst: &mut Vec<u8>)
    ensures
        final(dst)@ == old(dst)@ + index_name(),
{
    dst.push('i' as u8);
    dst.push('n' as u8);
    dst.push('d' as u8);
    dst.push('e' as u8);
    dst.push('x' as u8);
    dst.push('.' as u8);
    dst.push('h' as u8);
    dst.push('t' as u8);
    dst.push('m' as u8);
    dst.push('l' as u8);
    proof {
        assert(dst@ =~= old(dst)@ + index_name());
    }
}

/// Appends the relative lookup path for `rel` under a directory.
fn append_dir_rel(dst: &mut Vec<u8>, rel: &[u8])
    ensures
        final(dst)@ == old(dst)@ + spec_dir_rel(rel@),
{
    append_bytes(dst, rel);
    if rel.len() == 0 || rel[rel.len() - 1] == ('/' as u8) {
        append_index(dst);
        proof {
            assert(dst@ =~= old(dst)@ + (rel@ + index_name()));
        }
    }
}

/// Builds `dir + "/" + dir-relative lookup of rel`.
fn join_dir(dir: &[u8], rel: &[u8]) -> (v: Vec<u8>)
    ensures
        v@ == spec_join(dir@, spec_dir_rel(rel@)),
{
    let mut v: Vec<u8> = Vec::new();
    append_bytes(&mut v, dir);
    v.push('/' as u8);
    proof {
        assert(v@ =~= dir@ + seq![('/' as u8)]);
    }
    append_dir_rel(&mut v, rel);
    proof {
        assert((dir@ + seq![('/' as u8)]) + spec_dir_rel(rel@) =~= spec_join(
            dir@,
            spec_dir_rel(rel@),
        ));
    }
    v
}

/// Turns a resolution into the plan the file-serving shell executes.
pub fn serve_plan(r: &Resolution) -> (p: ServePlan)
    ensures
        p@ == spec_plan(r@),
{
    match r {
        Resolution::File { target } => ServePlan::Exact {
            path: vstd::slice::slice_to_vec(target.as_slice()),
        },
        Resolution::Directory { target, remainder } => {
            if has_traversal(remainder.as_slice()) {
                ServePlan::NotFound
            } else {
                ServePlan::Exact { path: join_dir(target.as_slice(), remainder.as_slice()) }
            }
        },
        Resolution::DefaultRoot { remainder } => {
            if has_traversal(remainder.as_slice()) {
                ServePlan::NotFound
            } else {
                let mut root: Vec<u8> = Vec::new();
                root.push('.' as u8);
                proof {
                    assert(root@ =~= root_dir());
                }
                let mut fb: Vec<u8> = Vec::new();
                fb.push('.' as u8);
                fb.push('/' as u8);
                append_index(&mut fb);
                proof {
                    assert(fb@ =~= root_fallback());
                }
                ServePlan::WithFallback {
                    path: join_dir(root.as_slice(), remainder.as_slice()),
                    fallback: fb,
                }
            }
        },
        Resolution::NoRoute => ServePlan::NotFound,
    }
}

/// A remainder that still holds a `..` segment is never served, neither
/// from a directory mount nor from the default root.
pub proof fn lemma_traversal_rejected(target: Seq<u8>, remainder: Seq<u8>)
    requires
        has_dotdot_segment(remainder),
    ensures
        spec_plan(ResolutionV::Directory { target, remainder }) == ServePlanV::NotFound,
        spec_plan(ResolutionV::DefaultRoot { remainder }) == ServePlanV::NotFound,
{
}

/// A request no mount claims falls through to the default root and is
/// served under the server root with the `./index.html` fallback behind
/// it — the single-page-application rule, a served file in place of a
/// redirect.
pub proof fn lemma_unmatched_path_gets_fallback(t: RouteTable, path: Seq<u8>)
    requires
        t.wf(),
        t.has_default_root,
        forall|j: int| 0 <= j < t.mounts@.len() ==> !(#[trigger] t.mounts@[j]).spec_matches(path),
        !has_dotdot_segment(spec_strip_slash(path)),
    ensures
        spec_plan(t.spec_resolve(path)) == (ServePlanV::WithFallback {
            path: spec_join(root_dir(), spec_dir_rel(spec_strip_slash(path))),
            fallback: root_fallback(),
        }),
{
    lemma_default_root_fallback(t, path);
}

/// Whatever a directory mount does serve lies under its target: the
/// served path extends `target + "/"` with a remainder free of `..`
/// segments.
pub proof fn lemma_served_path_under_target(target: Seq<u8>, remainder: Seq<u8>, p: Seq<u8>)
    requires
        spec_plan(ResolutionV::Directory { target, remainder }) == (ServePlanV::Exact { path: p }),
    ensures
        !has_dotdot_segment(remainder),
        p == spec_join(target, spec_dir_rel(remainder)),
        is_prefix(target + seq![('/' as u8)], p),
{
    let t = target + seq![('/' as u8)];
    assert(p == spec_join(target, spec_dir_rel(remainder)));
    assert(t =~= p.subrange(0, t.len() as int));
}

} // verus!
