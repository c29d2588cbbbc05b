//! Content types, inferred from the served file's extension.

use vstd::prelude::*;

verus! {

/// Scanning backwards from `i`: the position right after the last `.`
/// of the file name, unless a `/` (or the start) comes first.
pub open spec fn ext_dot(p: Seq<u8>, i: int) -> Option<int>
    decreases i,
{
    if i <= 0 {
        Option::<int>::None
    } else if p[i - 1] == ('.' as u8) {
        Option::Some(i)
    } else if p[i - 1] == ('/' as u8) {
        Option::<int>::None
    } else {
        ext_dot(p, i - 1)
    }
}

/// The extension of the file named by `p`: what follows the last `.`
/// of its last segment, empty when there is none.
pub open spec fn spec_ext(p: Seq<u8>) -> Seq<u8> {
    match ext_dot(p, p.len() as int) {
        Option::Some(i) => p.subrange(i, p.len() as int),
        Option::None => Seq::<u8>::empty(),
    }
}

fn find_ext_start(p: &[u8]) -> (r: Option<usize>)
    ensures
        match r {
            Option::Some(i) => i <= p@.len() && Option::Some(i as int) == ext_dot(
                p@,
                p@.len() as int,
            ),
            Option::None => ext_dot(p@, p@.len() as int) is None,
        },
{
    let mut i: usize = p.len();
    while i > 0
        invariant
            i <= p@.len(),
            ext_dot(p@, p@.len() as int) == ext_dot(p@, i as int),
        decreases i,
    {
        if p[i - 1] == ('.' as u8) {
            return Option::Some(i);
        }
        if p[i - 1] == ('/' as u8) {
            return Option::None;
        }
        i -= 1;
    }
    Option::None
}

fn ext2(e: &[u8], a: u8, b: u8) -> (r: bool)
    ensures
        r == (e@ == seq![a, b]),
{
    let r = e.len() == 2 && e[0] == a && e[1] == b;
    proof {
        assert(seq![a, b].len() == 2 && seq![a, b][0] == a && seq![a, b][1] == b);
        if r {
            assert(e@ =~= seq![a, b]);
        }
    }
    r
}

fn ext3(e: &[u8], a: u8, b: u8, c: u8) -> (r: bool)
    ensures
        r == (e@ == seq![a, b, c]),
{
    let r = e.len() == 3 && e[0] == a && e[1] == b && e[2] == c;
    proof {
        assert(seq![a, b, c].len() == 3 && seq![a, b, c][0] == a && seq![a, b, c][1] == b && seq![
            a,
            b,
            c,
        ][2] == c);
        if r {
            assert(e@ =~= seq![a, b, c]);
        }
    }
    r
}

fn ext4(e: &[u8], a: u8, b: u8, c: u8, d: u8) -> (r: bool)
    ensures
        r == (e@ == seq![a, b, c, d]),
{
    let r = e.len() == 4 && e[0] == a && e[1] == b && e[2] == c && e[3] == d;
    proof {
        assert(seq![a, b, c, d].len() == 4 && seq![a, b, c, d][0] == a && seq![a, b, c, d][1] == b
            && seq![a, b, c, d][2] == c && seq![a, b, c, d][3] == d);
        if r {
            assert(e@ =~= seq![a, b, c, d]);
        }
    }
    r
}

/// The content type served for a file extension.
pub open spec fn spec_content_type(e: Seq<u8>) -> Seq<char> {
    if e == seq![('h' as u8), ('t' as u8), ('m' as u8), ('l' as u8)] || e == seq![
        ('h' as u8),
        ('t' as u8),
        ('m' as u8),
    ] {
        "text/html"@
    } else if e == seq![('c' as u8), ('s' as u8), ('s' as u8)] {
        "text/css"@
    } else if e == seq![('j' as u8), ('s' as u8)] || e == seq![('m' as u8), ('j' as u8), ('s' as u8)] {
        "text/javascript"@
    } else if e == seq![('j' as u8), ('s' as u8), ('o' as u8), ('n' as u8)] {
        "application/json"@
    } else if e == seq![('w' as u8), ('a' as u8), ('s' as u8), ('m' as u8)] {
        "application/wasm"@
    } else if e == seq![('p' as u8), ('n' as u8), ('g' as u8)] {
        "image/png"@
    } else if e == seq![('j' as u8), ('p' as u8), ('g' as u8)] || e == seq![
        ('j' as u8),
        ('p' as u8),
        ('e' as u8),
        ('g' as u8),
    ] {
        "image/jpeg"@
    } else if e == seq![('g' as u8), ('i' as u8), ('f' as u8)] {
        "image/gif"@
    } else if e == seq![('s' as u8), ('v' as u8), ('g' as u8)] {
        "image/svg+xml"@
    } else if e == seq![('i' as u8), ('c' as u8), ('o' as u8)] {
        "image/x-icon"@
    } else if e == seq![('t' as u8), ('x' as u8), ('t' as u8)] {
        "text/plain"@
    } else {
        "application/octet-stream"@
    }
}

/// The content type for the file named by `path`, by its extension.
pub fn content_type_for(path: &[u8]) -> (r: &'static str)
    ensures
        r@ == spec_content_type(spec_ext(path@)),
{
    let e: &[u8] = match find_ext_start(path) {
        Option::Some(i) => vstd::slice::slice_subrange(path, i, path.len()),
        Option::None => vstd::slice::slice_subrange(path, path.len(), path.len()),
    };
    proof {
        assert(e@ =~= spec_ext(path@));
    }
    if ext4(e, 'h' as u8, 't' as u8, 'm' as u8, 'l' as u8) || ext3(
        e,
        'h' as u8,
        't' as u8,
        'm' as u8,
    ) {
        "text/html"
    } else if ext3(e, 'c' as u8, 's' as u8, 's' as u8) {
        "text/css"
    } else if ext2(e, 'j' as u8, 's' as u8) || ext3(e, 'm' as u8, 'j' as u8, 's' as u8) {
        "text/javascript"
    } else if ext4(e, 'j' as u8, 's' as u8, 'o' as u8, 'n' as u8) {
        "application/json"
    } else if ext4(e, 'w' as u8, 'a' as u8, 's' as u8, 'm' as u8) {
        "application/wasm"
    } else if ext3(e, 'p' as u8, 'n' as u8, 'g' as u8) {
        "image/png"
    } else if ext3(e, 'j' as u8, 'p' as u8, 'g' as u8) || ext4(
        e,
        'j' as u8,
        'p' as u8,
        'e' as u8,
        'g' as u8,
    ) {
        "image/jpeg"
    } else if ext3(e, 'g' as u8, 'i' as u8, 'f' as u8) {
        "image/gif"
    } else if ext3(e, 's' as u8, 'v' as u8, 'g' as u8) {
        "image/svg+xml"
    } else if ext3(e, 'i' as u8, 'c' as u8, 'o' as u8) {
        "image/x-icon"
    } else if ext3(e, 't' as u8, 'x' as u8, 't' as u8) {
        "text/plain"
    } else {
        "application/octet-stream"
    }
}

} // verus!
