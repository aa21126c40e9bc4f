//! Where the daemon listens, and the origin-restricted CORS rules of the
//! upstream agent: requests without `Origin: https://www.figma.com` get 403,
//! an OPTIONS preflight gets 204 with the upstream header set, and
//! `Access-Control-Allow-Private-Network: true` lets figma.com reach
//! 127.0.0.1 from Chrome 94 on.

use vstd::prelude::*;
use crate::config::Config;
use crate::text::{append_str, decimal, spec_decimal, str_eq, string_from_chars};
use crate::util::VERSION;

verus! {

pub const ALLOWED_ORIGIN: &'static str = "https://www.figma.com";

pub const HEADER_ALLOW: &'static str = "allow";

pub const HEADER_ALLOW_ORIGIN: &'static str = "access-control-allow-origin";

pub const HEADER_VARY: &'static str = "vary";

pub const VARY_ORIGIN: &'static str = "Origin";

pub const HEADER_ALLOW_HEADERS: &'static str = "access-control-allow-headers";

pub const ALLOWED_HEADERS: &'static str = "Content-Type, Accept";

pub const HEADER_MAX_AGE: &'static str = "access-control-max-age";

pub const MAX_AGE: &'static str = "600";

pub const HEADER_PRIVATE_NETWORK: &'static str = "access-control-allow-private-network";

pub const PRIVATE_NETWORK: &'static str = "true";

pub const HEADER_ALLOW_METHODS: &'static str = "access-control-allow-methods";

pub const ALLOWED_METHODS: &'static str = "POST, GET, OPTIONS";

/// `host:port`.
pub open spec fn spec_addr(host: Seq<char>, port: u16) -> Seq<char> {
    host + seq![':'] + spec_decimal(port as nat)
}

/// `host:port` as a string.
fn addr_string(host: &str, port: u16) -> (addr: String)
    ensures
        addr@ == spec_addr(host@, port),
{
    let mut out: Vec<char> = Vec::new();
    append_str(&mut out, host);
    out.push(':');
    let digits = decimal(port);
    let ghost before = out@;
    for i in 0..digits.len()
        invariant
            out@ == before + digits@.take(i as int),
    {
        out.push(digits[i]);
        assert(digits@.take(i + 1) =~= digits@.take(i as int).push(digits@[i as int]));
    }
    assert(digits@.take(digits@.len() as int) =~= digits@);
    assert(out@ =~= spec_addr(host@, port));
    string_from_chars(&out)
}

/// The HTTP listening address.
pub fn http_addr(config: &Config) -> (addr: String)
    ensures
        addr@ == spec_addr(config.host@, config.port),
{
    addr_string(config.host.as_str(), config.port)
}

/// The HTTPS listening address; none when `tls_port` is unset.
pub fn tls_addr(config: &Config) -> (addr: Option<String>)
    ensures
        match config.tls_port {
            Some(p) => addr matches Some(a) && a@ == spec_addr(config.host@, p),
            None => addr is None,
        },
{
    match config.tls_port {
        Some(p) => Some(addr_string(config.host.as_str(), p)),
        None => None,
    }
}

/// What the CORS layer does with a request.
#[derive(Clone, Copy, PartialEq, Eq, Structural, Debug)]
pub enum CorsAction {
    /// Answer 403 and nothing else.
    Forbidden,
    /// Answer 204 with an empty body and the preflight headers.
    Preflight,
    /// Pass the request on to the route, then add the CORS headers.
    Forward,
}

/// The CORS decision for a request, given its `Origin` header (`None` when
/// absent or not visible ASCII) and whether its method is OPTIONS.
pub open spec fn spec_cors_action(origin: Option<Seq<char>>, is_options: bool) -> CorsAction {
    match origin {
        Some(o) => if o == ALLOWED_ORIGIN@ {
            if is_options {
                CorsAction::Preflight
            } else {
                CorsAction::Forward
            }
        } else {
            CorsAction::Forbidden
        },
        None => CorsAction::Forbidden,
    }
}

pub fn cors_action(origin: Option<&str>, is_options: bool) -> (action: CorsAction)
    ensures
        action == spec_cors_action(
            match origin {
                Some(o) => Some(o@),
                None => None,
            },
            is_options,
        ),
{
    match origin {
        Some(o) => if str_eq(o, ALLOWED_ORIGIN) {
            if is_options {
                CorsAction::Preflight
            } else {
                CorsAction::Forward
            }
        } else {
            CorsAction::Forbidden
        },
        None => CorsAction::Forbidden,
    }
}

/// The headers set on a response that passed the origin check, in order:
/// the allowed origin and `Vary: Origin` always, and for a preflight also
/// the allowed headers, max age, private-network permission and methods.
pub open spec fn spec_cors_headers(is_options: bool) -> Seq<(Seq<char>, Seq<char>)> {
    let common = seq![(HEADER_ALLOW_ORIGIN@, ALLOWED_ORIGIN@), (HEADER_VARY@, VARY_ORIGIN@)];
    if is_options {
        common + seq![
            (HEADER_ALLOW_HEADERS@, ALLOWED_HEADERS@),
            (HEADER_MAX_AGE@, MAX_AGE@),
            (HEADER_PRIVATE_NETWORK@, PRIVATE_NETWORK@),
            (HEADER_ALLOW_METHODS@, ALLOWED_METHODS@),
        ]
    } else {
        common
    }
}

pub open spec fn headers_view(h: Seq<(&'static str, &'static str)>) -> Seq<(Seq<char>, Seq<char>)> {
    h.map_values(|p: (&'static str, &'static str)| (p.0@, p.1@))
}

/// The headers to set on an allowed response (after removing any `allow`
/// header the router added).
pub fn cors_headers(is_options: bool) -> (headers: Vec<(&'static str, &'static str)>)
    ensures
        headers_view(headers@) == spec_cors_headers(is_options),
{
    let mut h: Vec<(&'static str, &'static str)> = Vec::new();
    h.push((HEADER_ALLOW_ORIGIN, ALLOWED_ORIGIN));
    h.push((HEADER_VARY, VARY_ORIGIN));
    if is_options {
        h.push((HEADER_ALLOW_HEADERS, ALLOWED_HEADERS));
        h.push((HEADER_MAX_AGE, MAX_AGE));
        h.push((HEADER_PRIVATE_NETWORK, PRIVATE_NETWORK));
        h.push((HEADER_ALLOW_METHODS, ALLOWED_METHODS));
    }
    assert(headers_view(h@) =~= spec_cors_headers(is_options));
    h
}

/// Every answer that is not refused names the allowed origin and varies on
/// `Origin`; every preflight answer also grants private-network access.
pub proof fn cors_headers_law(is_options: bool)
    ensures
        spec_cors_headers(is_options).contains((HEADER_ALLOW_ORIGIN@, ALLOWED_ORIGIN@)),
        spec_cors_headers(is_options).contains((HEADER_VARY@, VARY_ORIGIN@)),
        is_options ==> spec_cors_headers(is_options).contains(
            (HEADER_PRIVATE_NETWORK@, PRIVATE_NETWORK@),
        ),
{
    assert(spec_cors_headers(is_options)[0] == (HEADER_ALLOW_ORIGIN@, ALLOWED_ORIGIN@));
    assert(spec_cors_headers(is_options)[1] == (HEADER_VARY@, VARY_ORIGIN@));
    if is_options {
        assert(spec_cors_headers(is_options)[4] == (HEADER_PRIVATE_NETWORK@, PRIVATE_NETWORK@));
    }
}

/// A request is refused exactly when its origin is not figma.com, whatever
/// its method; an OPTIONS request from figma.com is always a preflight.
pub proof fn cors_origin_law(origin: Option<Seq<char>>, is_options: bool)
    ensures
        (spec_cors_action(origin, is_options) == CorsAction::Forbidden) <==> origin != Some(
            ALLOWED_ORIGIN@,
        ),
        origin == Some(ALLOWED_ORIGIN@) && is_options ==> spec_cors_action(origin, is_options)
            == CorsAction::Preflight,
{
}


pub const HEADER_SERVER: &'static str = "server";

pub open spec fn server_product() -> Seq<char> {
    seq!['F', 'i', 'g', 'm', 'a', 'A', 'g', 'e', 'n', 't', '/']
}

/// The `Server` header every response carries: `FigmaAgent/<version>`.
pub fn server_header_value() -> (v: String)
    ensures
        v@ == server_product() + VERSION@,
{
    let mut out = vec!['F', 'i', 'g', 'm', 'a', 'A', 'g', 'e', 'n', 't', '/'];
    assert(out@ =~= server_product());
    append_str(&mut out, VERSION);
    string_from_chars(&out)
}

}
