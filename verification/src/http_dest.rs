//! The HTTP destination's guard: URL validation against server-side request
//! forgery.  Only `http` and `https` pass; loopback, link-local, broadcast,
//! unspecified and cloud-metadata hosts are refused by name; private and
//! internal addresses are refused by their octets.  The caller resolves the
//! host and holds each resolved address against `is_private_ip` before
//! connecting — resolution is I/O and stays outside this crate.

use vstd::prelude::*;

use crate::bytesutil::{ends_with_bytes, lower_byte, slice_eq, str_eq, to_lower_bytes, to_upper_bytes, upper_byte};
use vstd::string::{StrSliceExecFns, StringExecFns, StringSliceAdditionalSpecFns};
use vstd::utf8::encode_utf8;

verus! {

/// An address as plain numbers: four octets, or the 128-bit value of a
/// six-teen-byte address.
pub enum IpParts {
    V4(u8, u8, u8, u8),
    V6(u128),
}

/// A private or internal address: the RFC 1918 ranges, loopback,
/// link-local, broadcast, unspecified and carrier-grade NAT for four-octet
/// addresses; loopback and unspecified for the wide ones.
pub open spec fn spec_private_ip(ip: IpParts) -> bool {
    match ip {
        IpParts::V4(a, b, c, d) => {
            ||| a == 10
            ||| (a == 172 && 16 <= b <= 31)
            ||| (a == 192 && b == 168)
            ||| a == 127
            ||| (a == 169 && b == 254)
            ||| (a == 255 && b == 255 && c == 255 && d == 255)
            ||| (a == 0 && b == 0 && c == 0 && d == 0)
            ||| (a == 100 && 64 <= b <= 127)
        },
        IpParts::V6(v) => v == 0 || v == 1,
    }
}

/// Whether an address is private or internal, as `spec_private_ip` states.
pub fn is_private_ip(ip: &IpParts) -> (r: bool)
    ensures
        r == spec_private_ip(*ip),
{
    match ip {
        IpParts::V4(a, b, c, d) => {
            let a = *a;
            let b = *b;
            let c = *c;
            let d = *d;
            a == 10 || (a == 172 && 16 <= b && b <= 31) || (a == 192 && b == 168) || a == 127 || (
            a == 169 && b == 254) || (a == 255 && b == 255 && c == 255 && d == 255) || (a == 0 && b
                == 0 && c == 0 && d == 0) || (a == 100 && 64 <= b && b <= 127)
        },
        IpParts::V6(v) => *v == 0 || *v == 1,
    }
}

/// The lower-cased bytes of a host name.
pub open spec fn lower_host(h: Seq<char>) -> Seq<u8> {
    encode_utf8(h).map_values(|b: u8| lower_byte(b))
}

/// The host equals a blocked name, or sits under it as a subdomain.
pub open spec fn blocked_by(h: Seq<u8>, name: Seq<char>, dotted: Seq<char>) -> bool {
    h == encode_utf8(name) || (h.len() >= encode_utf8(dotted).len() && h.subrange(
        h.len() - encode_utf8(dotted).len(),
        h.len() as int,
    ) == encode_utf8(dotted))
}

/// A host name the destination never talks to.
pub open spec fn host_is_blocked(host: Seq<char>) -> bool {
    let h = lower_host(host);
    ||| blocked_by(h, "localhost"@, ".localhost"@)
    ||| blocked_by(h, "127.0.0.1"@, ".127.0.0.1"@)
    ||| blocked_by(h, "0.0.0.0"@, ".0.0.0.0"@)
    ||| blocked_by(h, "::1"@, ".::1"@)
    ||| blocked_by(h, "169.254.169.254"@, ".169.254.169.254"@)
    ||| blocked_by(h, "metadata.google.internal"@, ".metadata.google.internal"@)
    ||| blocked_by(h, "metadata.azure.com"@, ".metadata.azure.com"@)
    ||| blocked_by(h, "100.100.100.200"@, ".100.100.100.200"@)
}

/// Decides whether a host name is blocked.
pub fn check_host_blocked(host: &str) -> (r: bool)
    ensures
        r == host_is_blocked(host@),
{
    let lower = to_lower_bytes(host.as_bytes());
    proof {
        assert(lower@ =~= lower_host(host@));
    }
    let h = lower.as_slice();
    (slice_eq(h, "localhost".as_bytes()) || ends_with_bytes(h, ".localhost".as_bytes())) || (
    slice_eq(h, "127.0.0.1".as_bytes()) || ends_with_bytes(h, ".127.0.0.1".as_bytes())) || (
    slice_eq(h, "0.0.0.0".as_bytes()) || ends_with_bytes(h, ".0.0.0.0".as_bytes())) || (slice_eq(
        h,
        "::1".as_bytes(),
    ) || ends_with_bytes(h, ".::1".as_bytes())) || (slice_eq(h, "169.254.169.254".as_bytes())
        || ends_with_bytes(h, ".169.254.169.254".as_bytes())) || (slice_eq(
        h,
        "metadata.google.internal".as_bytes(),
    ) || ends_with_bytes(h, ".metadata.google.internal".as_bytes())) || (slice_eq(
        h,
        "metadata.azure.com".as_bytes(),
    ) || ends_with_bytes(h, ".metadata.azure.com".as_bytes())) || (slice_eq(
        h,
        "100.100.100.200".as_bytes(),
    ) || ends_with_bytes(h, ".100.100.100.200".as_bytes()))
}

/// The components of a parsed URL, as plain values.
pub struct UrlParts {
    pub scheme: String,
    pub host: Option<String>,
    pub port: Option<u16>,
    pub has_username: bool,
}

/// What a text parses to as a URL, if anything: named, the url crate's
/// reading (scheme lower-cased, host as given back by `host_str`).
pub uninterp spec fn url_parts_of(s: Seq<char>) -> Option<UrlParts>;

/// Relies on the url crate's `Url::parse`, `scheme`, `host_str`, `port` and
/// `username`, read into plain parts.
#[verifier::external_body]
pub fn parse_url_parts(s: &str) -> (r: Option<UrlParts>)
    ensures
        r == url_parts_of(s@),
{
    match url::Url::parse(s) {
        Ok(u) => Some(
            UrlParts {
                scheme: u.scheme().to_string(),
                host: u.host_str().map(|h| h.to_string()),
                port: u.port(),
                has_username: !u.username().is_empty(),
            },
        ),
        Err(_) => None,
    }
}

/// An accepted scheme.
pub open spec fn scheme_ok(s: Seq<char>) -> bool {
    s == "http"@ || s == "https"@
}

/// Validates a URL by name: it must parse, carry an accepted scheme and a
/// host that no block rule refuses.  The caller additionally resolves the
/// host and refuses private addresses via `is_private_ip`.
pub fn validate_url(url_str: &str) -> (r: Result<(), String>)
    ensures
        match url_parts_of(url_str@) {
            None => r is Err,
            Some(p) => r is Ok <==> (scheme_ok(p.scheme@) && (p.host matches Some(h)
                && !host_is_blocked(h@))),
        },
{
    let parts = match parse_url_parts(url_str) {
        Some(p) => p,
        None => {
            return Err(String::from_str("Invalid URL format"));
        },
    };
    if !(str_eq(parts.scheme.as_str(), "http") || str_eq(parts.scheme.as_str(), "https")) {
        return Err(String::from_str("Invalid URL scheme: only HTTP and HTTPS are allowed"));
    }
    match &parts.host {
        Some(h) => {
            if check_host_blocked(h.as_str()) {
                Err(String::from_str("Access to this host is blocked for security reasons"))
            } else {
                Ok(())
            }
        },
        None => Err(String::from_str("URL must have a valid host")),
    }
}

/// The HTTP destination's configuration; the method is kept validated.
pub struct HttpSender {
    pub url: String,
    pub method: String,
}

/// One of the accepted methods, upper-cased.
pub open spec fn upper_method(m: Seq<char>) -> Seq<u8> {
    encode_utf8(m).map_values(|b: u8| upper_byte(b))
}

/// A method the destination may use.
pub open spec fn method_allowed(m: Seq<char>) -> bool {
    ||| upper_method(m) == encode_utf8("GET"@)
    ||| upper_method(m) == encode_utf8("POST"@)
    ||| upper_method(m) == encode_utf8("PUT"@)
    ||| upper_method(m) == encode_utf8("PATCH"@)
    ||| upper_method(m) == encode_utf8("DELETE"@)
}

impl HttpSender {
    /// Validates a URL by name, as the free function does.
    pub fn validate_url(url_str: &str) -> (r: Result<(), String>)
        ensures
            match url_parts_of(url_str@) {
                None => r is Err,
                Some(p) => r is Ok <==> (scheme_ok(p.scheme@) && (p.host matches Some(h)
                    && !host_is_blocked(h@))),
            },
    {
        validate_url(url_str)
    }

    /// Keeps the URL as given (it is validated again before every send) and
    /// the method when it is allowed — anything else becomes `POST`.
    pub fn new(url: String, method: String) -> (r: Self)
        ensures
            r.url == url,
            method_allowed(method@) ==> encode_utf8(r.method@) == upper_method(method@),
            !method_allowed(method@) ==> r.method@ == "POST"@,
    {
        let upper = to_upper_bytes(method.as_str().as_bytes());
        proof {
            assert(upper@ =~= upper_method(method@));
        }
        let h = upper.as_slice();
        let allowed = slice_eq(h, "GET".as_bytes()) || slice_eq(h, "POST".as_bytes()) || slice_eq(
            h,
            "PUT".as_bytes(),
        ) || slice_eq(h, "PATCH".as_bytes()) || slice_eq(h, "DELETE".as_bytes());
        if allowed {
            let ghost ub = upper@;
            match crate::bytesutil::string_from_utf8(upper) {
                Some(m) => {
                    proof {
                        vstd::utf8::decode_utf8_encode_utf8(ub);
                    }
                    HttpSender { url, method: m }
                },
                None => {
                    proof {
                        lemma_allowed_method_is_text(ub);
                        assert(false);
                    }
                    HttpSender { url, method }
                },
            }
        } else {
            HttpSender { url, method: String::from_str("POST") }
        }
    }
}

/// An allowed method's bytes are one of five ASCII words, hence text.
proof fn lemma_allowed_method_is_text(ub: Seq<u8>)
    requires
        ub == encode_utf8("GET"@) || ub == encode_utf8("POST"@) || ub == encode_utf8("PUT"@) || ub
            == encode_utf8("PATCH"@) || ub == encode_utf8("DELETE"@),
    ensures
        vstd::utf8::valid_utf8(ub),
{
    broadcast use vstd::utf8::encode_utf8_valid_utf8;

}

} // verus!
