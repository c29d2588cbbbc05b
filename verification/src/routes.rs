//! The route table: an ordered collection of mounts, resolved
//! longest-prefix-first, with an implicit default root mount behind all
//! of them.

use crate::bytes::{bytes_eq, is_prefix, starts_with};
use crate::mount::{MountKind, MountSpec};
use vstd::prelude::*;

verus! {

/// Spec-level picture of what a request path resolved to.
pub enum ResolutionV {
    /// A single-file mount: serve exactly its target.
    File { target: Seq<u8> },
    /// A directory mount: serve `remainder` under its target.
    Directory { target: Seq<u8>, remainder: Seq<u8> },
    /// The implicit root mount: serve `remainder` under the server root,
    /// with the root's not-found fallback behind it.
    DefaultRoot { remainder: Seq<u8> },
    /// No mount claims the path and there is no default root.
    NoRoute,
}

/// What a request path resolved to.
#[derive(Debug, PartialEq, Eq)]
pub enum Resolution {
    File { target: Vec<u8> },
    Directory { target: Vec<u8>, remainder: Vec<u8> },
    DefaultRoot { remainder: Vec<u8> },
    NoRoute,
}

impl View for Resolution {
    type V = ResolutionV;

    open spec fn view(&self) -> ResolutionV {
        match self {
            Resolution::File { target } => ResolutionV::File { target: target@ },
            Resolution::Directory { target, remainder } => ResolutionV::Directory {
                target: target@,
                remainder: remainder@,
            },
            Resolution::DefaultRoot { remainder } => ResolutionV::DefaultRoot {
                remainder: remainder@,
            },
            Resolution::NoRoute => ResolutionV::NoRoute,
        }
    }
}

/// Drops one leading `/`, if present.
pub open spec fn spec_strip_slash(s: Seq<u8>) -> Seq<u8> {
    if s.len() > 0 && s[0] == ('/' as u8) {
        s.subrange(1, s.len() as int)
    } else {
        s
    }
}

fn strip_slash<'a>(s: &'a [u8]) -> (r: &'a [u8])
    ensures
        r@ == spec_strip_slash(s@),
{
    if s.len() > 0 && s[0] == ('/' as u8) {
        vstd::slice::slice_subrange(s, 1, s.len())
    } else {
        s
    }
}

/// No two mounts share a prefix.
pub open spec fn unique_prefixes(ms: Seq<MountSpec>) -> bool {
    forall|i: int, j: int|
        0 <= i < j < ms.len() ==> ms[i].prefix@ != ms[j].prefix@
}

/// The registered mount that claims `path` with the longest prefix;
/// among equal prefix lengths the later registration wins.
pub open spec fn spec_best(ms: Seq<MountSpec>, path: Seq<u8>) -> Option<int>
    decreases ms.len(),
{
    if ms.len() == 0 {
        Option::<int>::None
    } else {
        let prev = spec_best(ms.drop_last(), path);
        let cur = ms.last().spec_matches(path);
        match prev {
            Option::None => if cur {
                Option::Some(ms.len() - 1)
            } else {
                Option::None
            },
            Option::Some(k) => if cur && ms[k].prefix@.len() <= ms.last().prefix@.len() {
                Option::Some(ms.len() - 1)
            } else {
                Option::Some(k)
            },
        }
    }
}

/// Route resolution is longest-prefix-first: the chosen mount claims the
/// path, and no mount that claims it has a longer prefix; when no mount
/// claims it, nothing is chosen.
pub proof fn lemma_best_longest(ms: Seq<MountSpec>, path: Seq<u8>)
    ensures
        match spec_best(ms, path) {
            Option::Some(i) => 0 <= i < ms.len() && ms[i].spec_matches(path) && forall|j: int|
                0 <= j < ms.len() && #[trigger] ms[j].spec_matches(path) ==> ms[j].prefix@.len()
                    <= ms[i].prefix@.len(),
            Option::None => forall|j: int|
                0 <= j < ms.len() ==> !(#[trigger] ms[j].spec_matches(path)),
        },
    decreases ms.len(),
{
    if ms.len() > 0 {
        lemma_best_longest(ms.drop_last(), path);
        assert(forall|j: int| 0 <= j < ms.len() - 1 ==> ms.drop_last()[j] == ms[j]);
    }
}

/// The table after registering `m`: an existing mount with the same
/// prefix is replaced in place, otherwise `m` is appended.
pub open spec fn spec_register(ms: Seq<MountSpec>, m: MountSpec) -> Seq<MountSpec> {
    if exists|j: int| 0 <= j < ms.len() && ms[j].prefix@ == m.prefix@ {
        ms.update(choose|j: int| 0 <= j < ms.len() && ms[j].prefix@ == m.prefix@, m)
    } else {
        ms.push(m)
    }
}

/// An ordered route table plus the implicit default root mount.
pub struct RouteTable {
    pub mounts: Vec<MountSpec>,
    pub has_default_root: bool,
}

impl RouteTable {
    /// Every mount is well formed and no two mounts share a prefix.
    pub open spec fn wf(self) -> bool {
        &&& (forall|i: int| 0 <= i < self.mounts@.len() ==> (#[trigger] self.mounts@[i]).wf())
        &&& unique_prefixes(self.mounts@)
    }

    /// What `path` resolves to: the longest-prefix mount, its kind
    /// deciding between a single file and a directory lookup; otherwise
    /// the default root when present, otherwise no route.
    pub open spec fn spec_resolve(self, path: Seq<u8>) -> ResolutionV {
        match spec_best(self.mounts@, path) {
            Option::Some(i) => {
                let m = self.mounts@[i];
                match m.kind {
                    MountKind::Directory => ResolutionV::Directory {
                        target: m.target@,
                        remainder: spec_strip_slash(
                            path.subrange(m.prefix@.len() as int, path.len() as int),
                        ),
                    },
                    MountKind::File => ResolutionV::File { target: m.target@ },
                }
            },
            Option::None => if self.has_default_root {
                ResolutionV::DefaultRoot { remainder: spec_strip_slash(path) }
            } else {
                ResolutionV::NoRoute
            },
        }
    }

    pub fn new(has_default_root: bool) -> (r: RouteTable)
        ensures
            r.wf(),
            r.mounts@ =~= Seq::<MountSpec>::empty(),
            r.has_default_root == has_default_root,
    {
        RouteTable { mounts: Vec::new(), has_default_root }
    }

    /// Registers a mount; a mount already registered under the same
    /// prefix is replaced, so the last registration wins.
    pub fn register(&mut self, m: MountSpec)
        requires
            old(self).wf(),
            m.wf(),
        ensures
            final(self).wf(),
            final(self).has_default_root == old(self).has_default_root,
            final(self).mounts@ == spec_register(old(self).mounts@, m),
    {
        let ghost ms = self.mounts@;
        let mut j: usize = 0;
        while j < self.mounts.len()
            invariant
                self.mounts@ == ms,
                ms == old(self).mounts@,
                self.has_default_root == old(self).has_default_root,
                old(self).wf(),
                m.wf(),
                j <= ms.len(),
                forall|k: int| 0 <= k < j ==> ms[k].prefix@ != m.prefix@,
            decreases ms.len() - j,
        {
            if bytes_eq(self.mounts[j].prefix.as_slice(), m.prefix.as_slice()) {
                self.mounts.set(j, m);
                proof {
                    let jj = j as int;
                    assert(ms[jj].prefix@ == m.prefix@);
                    assert(exists|i: int| 0 <= i < ms.len() && ms[i].prefix@ == m.prefix@);
                    let w = choose|i: int| 0 <= i < ms.len() && ms[i].prefix@ == m.prefix@;
                    if w != jj {
                        assert(ms[w].prefix@ == ms[jj].prefix@);
                        assert(false);
                    }
                    assert(self.mounts@ == spec_register(ms, m));
                    assert(forall|k: int|
                        0 <= k < self.mounts@.len() ==> (#[trigger] self.mounts@[k]).prefix@
                            == ms[k].prefix@);
                    assert(forall|k: int|
                        0 <= k < self.mounts@.len() ==> (#[trigger] self.mounts@[k]).wf());
                    assert(unique_prefixes(self.mounts@));
                }
                return ;
            }
            j += 1;
        }
        self.mounts.push(m);
        proof {
            assert(!(exists|i: int| 0 <= i < ms.len() && ms[i].prefix@ == m.prefix@));
            assert(self.mounts@ == spec_register(ms, m));
            assert(forall|k: int|
                0 <= k < self.mounts@.len() ==> (#[trigger] self.mounts@[k]).wf());
            assert(unique_prefixes(self.mounts@));
        }
    }

    /// Resolves a request path against the table.
    pub fn resolve(&self, path: &[u8]) -> (r: Resolution)
        requires
            self.wf(),
        ensures
            r@ == self.spec_resolve(path@),
    {
        let ghost ms = self.mounts@;
        let mut best: Option<usize> = Option::None;
        let mut idx: usize = 0;
        while idx < self.mounts.len()
            invariant
                self.wf(),
                self.mounts@ == ms,
                idx <= ms.len(),
                match best {
                    Option::Some(b) => b < idx && Option::<int>::Some(b as int) == spec_best(
                        ms.subrange(0, idx as int),
                        path@,
                    ),
                    Option::None => spec_best(ms.subrange(0, idx as int), path@)
                        == Option::<int>::None,
                },
            decreases ms.len() - idx,
        {
            proof {
                assert(ms.subrange(0, idx as int + 1).drop_last() =~= ms.subrange(0, idx as int));
                assert(ms.subrange(0, idx as int + 1).last() == ms[idx as int]);
            }
            if mount_matches(&self.mounts[idx], path) {
                let take = match best {
                    Option::None => true,
                    Option::Some(b) => self.mounts[b].prefix.len() <= self.mounts[idx].prefix.len(),
                };
                if take {
                    best = Option::Some(idx);
                }
            }
            idx += 1;
        }
        proof {
            assert(ms.subrange(0, ms.len() as int) =~= ms);
        }
        match best {
            Option::Some(i) => {
                let m = &self.mounts[i];
                match m.kind {
                    MountKind::Directory => {
                        proof {
                            lemma_best_longest(ms, path@);
                        }
                        let rem = strip_slash(
                            vstd::slice::slice_subrange(path, m.prefix.len(), path.len()),
                        );
                        Resolution::Directory {
                            target: vstd::slice::slice_to_vec(m.target.as_slice()),
                            remainder: vstd::slice::slice_to_vec(rem),
                        }
                    },
                    MountKind::File => Resolution::File {
                        target: vstd::slice::slice_to_vec(m.target.as_slice()),
                    },
                }
            },
            Option::None => {
                if self.has_default_root {
                    Resolution::DefaultRoot {
                        remainder: vstd::slice::slice_to_vec(strip_slash(path)),
                    }
                } else {
                    Resolution::NoRoute
                }
            },
        }
    }
}

/// Whether `m` claims `path`.
pub fn mount_matches(m: &MountSpec, path: &[u8]) -> (r: bool)
    requires
        m.wf(),
    ensures
        r == m.spec_matches(path@),
{
    match m.kind {
        MountKind::Directory => {
            if !starts_with(path, m.prefix.as_slice()) {
                false
            } else if path.len() == m.prefix.len() {
                true
            } else if m.prefix[m.prefix.len() - 1] == ('/' as u8) {
                true
            } else {
                path[m.prefix.len()] == ('/' as u8)
            }
        },
        MountKind::File => {
            if m.prefix[m.prefix.len() - 1] == ('/' as u8) {
                starts_with(path, m.prefix.as_slice())
            } else {
                bytes_eq(path, m.prefix.as_slice())
            }
        },
    }
}

/// Every mount a path could reach claims it with a prefix of the path.
pub proof fn lemma_matches_is_prefix(m: MountSpec, path: Seq<u8>)
    requires
        m.spec_matches(path),
    ensures
        is_prefix(m.prefix@, path),
{
    match m.kind {
        MountKind::Directory => {
        },
        MountKind::File => {
            if !m.file_allows_subpaths() {
                assert(path == m.prefix@);
                assert(m.prefix@ =~= path.subrange(0, m.prefix@.len() as int));
            }
        },
    }
}

/// A single-file mount always answers a request for exactly its prefix
/// with exactly its target, whatever else is registered.
pub proof fn lemma_file_mount_exact(t: RouteTable, i: int, path: Seq<u8>)
    requires
        t.wf(),
        0 <= i < t.mounts@.len(),
        t.mounts@[i].kind == MountKind::File,
        t.mounts@[i].prefix@ == path,
    ensures
        t.spec_resolve(path) == (ResolutionV::File { target: t.mounts@[i].target@ }),
{
    let m = t.mounts@[i];
    if m.file_allows_subpaths() {
        assert(m.prefix@ =~= path.subrange(0, m.prefix@.len() as int));
    }
    assert(m.spec_matches(path));
    lemma_best_longest(t.mounts@, path);
    match spec_best(t.mounts@, path) {
        Option::Some(k) => {
            let w = t.mounts@[k];
            assert(w.spec_matches(path));
            lemma_matches_is_prefix(w, path);
            assert(m.prefix@.len() <= w.prefix@.len());
            assert(w.prefix@.len() <= path.len());
            assert(w.prefix@ =~= path);
            if k != i {
                assert(t.mounts@[k].prefix@ != t.mounts@[i].prefix@);
                assert(false);
            }
        },
        Option::None => {
            assert(false);
        },
    }
}

/// Route resolution is longest-prefix-first: when any registered mount
/// claims the path, resolution uses a claiming mount whose prefix is at
/// least as long as that of every other claiming mount.
pub proof fn lemma_resolve_longest_prefix(t: RouteTable, path: Seq<u8>, j: int)
    requires
        t.wf(),
        0 <= j < t.mounts@.len(),
        t.mounts@[j].spec_matches(path),
    ensures
        match spec_best(t.mounts@, path) {
            Option::Some(i) => 0 <= i < t.mounts@.len() && t.mounts@[i].spec_matches(path)
                && t.mounts@[j].prefix@.len() <= t.mounts@[i].prefix@.len(),
            Option::None => false,
        },
{
    lemma_best_longest(t.mounts@, path);
}

/// When no registered mount claims a path and the default root is
/// present, resolution falls through to the default root.
pub proof fn lemma_default_root_fallback(t: RouteTable, path: Seq<u8>)
    requires
        t.wf(),
        t.has_default_root,
        forall|j: int| 0 <= j < t.mounts@.len() ==> !(#[trigger] t.mounts@[j]).spec_matches(path),
    ensures
        t.spec_resolve(path) == (ResolutionV::DefaultRoot { remainder: spec_strip_slash(path) }),
{
    lemma_best_longest(t.mounts@, path);
    match spec_best(t.mounts@, path) {
        Option::Some(k) => {
            assert(false);
        },
        Option::None => {
        },
    }
}

/// Registering twice under one prefix leaves exactly the table that the
/// second registration alone would have left: the later target is
/// authoritative, and since resolution is a function of the table, every
/// later lookup sees it.
pub proof fn lemma_register_last_wins(ms: Seq<MountSpec>, m1: MountSpec, m2: MountSpec)
    requires
        unique_prefixes(ms),
        m1.prefix@ == m2.prefix@,
    ensures
        spec_register(spec_register(ms, m1), m2) == spec_register(ms, m2),
{
    if exists|j: int| 0 <= j < ms.len() && ms[j].prefix@ == m1.prefix@ {
        let j1 = choose|j: int| 0 <= j < ms.len() && ms[j].prefix@ == m1.prefix@;
        let s1 = ms.update(j1, m1);
        assert(spec_register(ms, m1) == s1);
        assert(s1[j1].prefix@ == m2.prefix@);
        assert(exists|j: int| 0 <= j < s1.len() && s1[j].prefix@ == m2.prefix@);
        let j2 = choose|j: int| 0 <= j < s1.len() && s1[j].prefix@ == m2.prefix@;
        if j2 != j1 {
            assert(s1[j2] == ms[j2]);
            assert(ms[j2].prefix@ == ms[j1].prefix@);
            assert(false);
        }
        let j3 = choose|j: int| 0 <= j < ms.len() && ms[j].prefix@ == m2.prefix@;
        if j3 != j1 {
            assert(ms[j3].prefix@ == ms[j1].prefix@);
            assert(false);
        }
        assert(s1.update(j1, m2) =~= ms.update(j1, m2));
    } else {
        let s1 = ms.push(m1);
        assert(spec_register(ms, m1) == s1);
        assert(s1[ms.len() as int].prefix@ == m2.prefix@);
        assert(exists|j: int| 0 <= j < s1.len() && s1[j].prefix@ == m2.prefix@);
        let j2 = choose|j: int| 0 <= j < s1.len() && s1[j].prefix@ == m2.prefix@;
        if j2 != ms.len() as int {
            assert(s1[j2] == ms[j2]);
            assert(false);
        }
        assert(s1.update(j2, m2) =~= ms.push(m2));
    }
}

} // verus!
