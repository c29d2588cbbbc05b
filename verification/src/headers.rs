//! The header policy: the fixed set of response headers, a pure
//! function of whether watching is enabled — never of the route.

use vstd::prelude::*;

verus! {

/// One header the policy sets on every response.
#[derive(Clone, Copy, PartialEq, Eq, Structural, Debug)]
pub enum HeaderDirective {
    /// `Cache-Control: no-cache, no-store, must-revalidate`
    CacheControl,
    /// `Pragma: no-cache`
    Pragma,
    /// `Access-Control-Allow-Origin: *`
    AllowOrigin,
    /// `Cross-Origin-Embedder-Policy: require-corp`
    EmbedderPolicy,
    /// `Cross-Origin-Opener-Policy: same-origin`
    OpenerPolicy,
}

/// The headers set on every response: the cross-origin-isolation trio
/// always, and the two cache-busting headers exactly when watching.
pub open spec fn spec_headers(watching: bool) -> Seq<HeaderDirective> {
    if watching {
        seq![
            HeaderDirective::CacheControl,
            HeaderDirective::Pragma,
            HeaderDirective::AllowOrigin,
            HeaderDirective::EmbedderPolicy,
            HeaderDirective::OpenerPolicy,
        ]
    } else {
        seq![
            HeaderDirective::AllowOrigin,
            HeaderDirective::EmbedderPolicy,
            HeaderDirective::OpenerPolicy,
        ]
    }
}

/// The headers to set on an outgoing response.
pub fn headers_for(watching: bool) -> (r: Vec<HeaderDirective>)
    ensures
        r@ == spec_headers(watching),
{
    let mut v: Vec<HeaderDirective> = Vec::new();
    if watching {
        v.push(HeaderDirective::CacheControl);
        v.push(HeaderDirective::Pragma);
    }
    v.push(HeaderDirective::AllowOrigin);
    v.push(HeaderDirective::EmbedderPolicy);
    v.push(HeaderDirective::OpenerPolicy);
    proof {
        assert(v@ =~= spec_headers(watching));
    }
    v
}

/// The wire name of a header directive.
pub fn header_name(h: HeaderDirective) -> (r: &'static str)
    ensures
        h == HeaderDirective::CacheControl ==> r@ == "Cache-Control"@,
        h == HeaderDirective::Pragma ==> r@ == "Pragma"@,
        h == HeaderDirective::AllowOrigin ==> r@ == "Access-Control-Allow-Origin"@,
        h == HeaderDirective::EmbedderPolicy ==> r@ == "Cross-Origin-Embedder-Policy"@,
        h == HeaderDirective::OpenerPolicy ==> r@ == "Cross-Origin-Opener-Policy"@,
{
    match h {
        HeaderDirective::CacheControl => "Cache-Control",
        HeaderDirective::Pragma => "Pragma",
        HeaderDirective::AllowOrigin => "Access-Control-Allow-Origin",
        HeaderDirective::EmbedderPolicy => "Cross-Origin-Embedder-Policy",
        HeaderDirective::OpenerPolicy => "Cross-Origin-Opener-Policy",
    }
}

/// The wire value of a header directive.
pub fn header_value(h: HeaderDirective) -> (r: &'static str)
    ensures
        h == HeaderDirective::CacheControl ==> r@ == "no-cache, no-store, must-revalidate"@,
        h == HeaderDirective::Pragma ==> r@ == "no-cache"@,
        h == HeaderDirective::AllowOrigin ==> r@ == "*"@,
        h == HeaderDirective::EmbedderPolicy ==> r@ == "require-corp"@,
        h == HeaderDirective::OpenerPolicy ==> r@ == "same-origin"@,
{
    match h {
        HeaderDirective::CacheControl => "no-cache, no-store, must-revalidate",
        HeaderDirective::Pragma => "no-cache",
        HeaderDirective::AllowOrigin => "*",
        HeaderDirective::EmbedderPolicy => "require-corp",
        HeaderDirective::OpenerPolicy => "same-origin",
    }
}

/// Every response carries the cache-busting header exactly when
/// watching is enabled, and the cross-origin-isolation trio always.
pub proof fn lemma_cache_header_iff_watching(watching: bool)
    ensures
        spec_headers(watching).contains(HeaderDirective::CacheControl) <==> watching,
        spec_headers(watching).contains(HeaderDirective::Pragma) <==> watching,
        spec_headers(watching).contains(HeaderDirective::AllowOrigin),
        spec_headers(watching).contains(HeaderDirective::EmbedderPolicy),
        spec_headers(watching).contains(HeaderDirective::OpenerPolicy),
{
    let s = spec_headers(watching);
    if watching {
        assert(s[0] == HeaderDirective::CacheControl);
        assert(s[1] == HeaderDirective::Pragma);
        assert(s[2] == HeaderDirective::AllowOrigin);
        assert(s[3] == HeaderDirective::EmbedderPolicy);
        assert(s[4] == HeaderDirective::OpenerPolicy);
    } else {
        assert(s[0] == HeaderDirective::AllowOrigin);
        assert(s[1] == HeaderDirective::EmbedderPolicy);
        assert(s[2] == HeaderDirective::OpenerPolicy);
        assert(forall|i: int| 0 <= i < s.len() ==> s[i] != HeaderDirective::CacheControl);
        assert(forall|i: int| 0 <= i < s.len() ==> s[i] != HeaderDirective::Pragma);
    }
}

} // verus!
