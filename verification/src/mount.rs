//! Mount specifications: one `prefix:target` binding each.
//!
//! A token from the command line is split on its first `:`; the part
//! before it is the URL path prefix, the part after it the filesystem
//! target.  A target ending in `.html` makes a single-file mount, any
//! other target a directory mount.

use crate::bytes::{find_byte, is_prefix, is_suffix};
use vstd::prelude::*;

verus! {

/// The `.html` suffix that marks a single-file mount target.
pub open spec fn html_suffix() -> Seq<u8> {
    seq![('.' as u8), ('h' as u8), ('t' as u8), ('m' as u8), ('l' as u8)]
}

#[derive(Clone, Copy, PartialEq, Eq, Structural, Debug)]
pub enum MountKind {
    /// Serve the directory tree rooted at the target.
    Directory,
    /// Serve the single file named by the target.
    File,
}

/// One mount: a URL path prefix bound to a filesystem target.
#[derive(Debug, PartialEq, Eq)]
pub struct MountSpec {
    pub prefix: Vec<u8>,
    pub target: Vec<u8>,
    pub kind: MountKind,
}

#[derive(Clone, Copy, PartialEq, Eq, Structural, Debug)]
pub enum MountError {
    /// The token has no `:` separator.
    MissingSeparator,
    /// The part before the first `:` is empty.
    EmptyPrefix,
}

impl MountSpec {
    /// A mount is well formed when its prefix is nonempty and its kind
    /// agrees with the `.html` classification of its target.
    pub open spec fn wf(self) -> bool {
        &&& self.prefix@.len() > 0
        &&& (self.kind == MountKind::File <==> is_suffix(html_suffix(), self.target@))
    }

    /// A file mount whose prefix ends in `/` also claims the paths below
    /// the prefix; one whose prefix does not claims the exact path only.
    pub open spec fn file_allows_subpaths(self) -> bool {
        self.prefix@.len() > 0 && self.prefix@[self.prefix@.len() - 1] == ('/' as u8)
    }

    /// Whether this mount claims `path`.  A directory mount claims its
    /// prefix and everything below it (on a `/` boundary); a file mount
    /// claims exactly its prefix, or everything under it when the prefix
    /// ends in `/`.
    pub open spec fn spec_matches(self, path: Seq<u8>) -> bool {
        match self.kind {
            MountKind::Directory => is_prefix(self.prefix@, path) && (path.len()
                == self.prefix@.len() || self.prefix@[self.prefix@.len() - 1] == ('/' as u8)
                || path[self.prefix@.len() as int] == ('/' as u8)),
            MountKind::File => if self.file_allows_subpaths() {
                is_prefix(self.prefix@, path)
            } else {
                path == self.prefix@
            },
        }
    }
}

/// Splits a `prefix:target` token into a typed mount.
///
/// Succeeds exactly when the token holds a `:` and the part before the
/// first `:` is nonempty; the target is everything after that `:`, and
/// the mount kind is `File` exactly when the target ends in `.html`.
pub fn parse_mount(token: &[u8]) -> (r: Result<MountSpec, MountError>)
    ensures
        (r == Result::<MountSpec, MountError>::Err(MountError::MissingSeparator)) <==> (forall|
            j: int,
        | 0 <= j < token@.len() ==> token@[j] != (':' as u8)),
        (r == Result::<MountSpec, MountError>::Err(MountError::EmptyPrefix)) <==> (token@.len() > 0
            && token@[0] == (':' as u8)),
        match r {
            Result::Ok(m) => {
                &&& m.wf()
                &&& 0 < m.prefix@.len() < token@.len()
                &&& token@[m.prefix@.len() as int] == (':' as u8)
                &&& (forall|j: int| 0 <= j < m.prefix@.len() ==> token@[j] != (':' as u8))
                &&& m.prefix@ == token@.subrange(0, m.prefix@.len() as int)
                &&& m.target@ == token@.subrange(m.prefix@.len() as int + 1, token@.len() as int)
                &&& (m.kind == MountKind::File <==> is_suffix(html_suffix(), m.target@))
            },
            Result::Err(_) => true,
        },
{
    match find_byte(token, (':' as u8)) {
        Option::None => Result::Err(MountError::MissingSeparator),
        Option::Some(i) => {
            if i == 0 {
                Result::Err(MountError::EmptyPrefix)
            } else {
                let n = token.len();
                let prefix = vstd::slice::slice_to_vec(
                    vstd::slice::slice_subrange(token, 0, i),
                );
                let target = vstd::slice::slice_to_vec(
                    vstd::slice::slice_subrange(token, i + 1, n),
                );
                let kind = if is_html_target(target.as_slice()) {
                    MountKind::File
                } else {
                    MountKind::Directory
                };
                Result::Ok(MountSpec { prefix, target, kind })
            }
        },
    }
}

/// Whether the target name ends in `.html`.
fn is_html_target(t: &[u8]) -> (r: bool)
    ensures
        r == is_suffix(html_suffix(), t@),
{
    if t.len() < 5 {
        return false;
    }
    let n = t.len();
    let r = t[n - 5] == ('.' as u8) && t[n - 4] == ('h' as u8) && t[n - 3] == ('t' as u8) && t[n - 2] == ('m' as u8) && t[n - 1]
        == ('l' as u8);
    proof {
        let s = t@.subrange(t@.len() - 5, t@.len() as int);
        assert(s[0] == t@[t@.len() - 5]);
        assert(s[1] == t@[t@.len() - 4]);
        assert(s[2] == t@[t@.len() - 3]);
        assert(s[3] == t@[t@.len() - 2]);
        assert(s[4] == t@[t@.len() - 1]);
        if r {
            assert(html_suffix() =~= s);
        } else {
            if is_suffix(html_suffix(), t@) {
                assert(html_suffix()[0] == s[0]);
                assert(html_suffix()[1] == s[1]);
                assert(html_suffix()[2] == s[2]);
                assert(html_suffix()[3] == s[3]);
                assert(html_suffix()[4] == s[4]);
            }
        }
    }
    r
}

} // verus!
