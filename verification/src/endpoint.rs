//! The inference endpoint's addresses: splitting the configured server URL
//! into host and port, and building the generation and version URLs.
use vstd::prelude::*;

verus! {

use crate::chars::{chars_eq_str, chars_to_string, str_to_chars};
use crate::numerals::{plain_digits, push_u64_plain};

/// What the url crate's parser extracts from an endpoint text: its scheme,
/// its host, and its explicit port, when the text parses as a URL that has
/// a host.
pub uninterp spec fn url_parts(s: Seq<char>) -> Option<(Seq<char>, Seq<char>, Option<u16>)>;

/// Relies on `url::Url::parse` and its `scheme`, `host_str` and `port`
/// accessors: the parsed parts depend on the input text alone.
#[verifier::external_body]
fn parse_url_parts(s: &str) -> (r: Option<(String, String, Option<u16>)>)
    ensures
        r is Some <==> url_parts(s@) is Some,
        r matches Some(p) ==> url_parts(s@) matches Some(q) && p.0@ == q.0 && p.1@ == q.1 && p.2
            == q.2,
{
    match url::Url::parse(s) {
        Ok(u) => match u.host_str() {
            Some(h) => Some((u.scheme().to_string(), h.to_string(), u.port())),
            None => None,
        },
        Err(_) => None,
    }
}

/// An endpoint text that does not parse as a URL with a host.
#[derive(Debug, Clone, PartialEq, Eq, Structural)]
pub enum UrlError {
    Invalid,
}

/// The port used when the URL names none.
pub open spec fn default_port(scheme: Seq<char>) -> u16 {
    if scheme == "https"@ {
        443
    } else {
        80
    }
}

pub open spec fn host_with_scheme(scheme: Seq<char>, host: Seq<char>) -> Seq<char> {
    scheme + "://"@ + host
}

/// Split an endpoint URL into `scheme://host` and its port; a URL naming
/// no port falls back to 443 for https and 80 otherwise.
pub fn split_host_port(url: &str) -> (r: Result<(String, u16), UrlError>)
    ensures
        match url_parts(url@) {
            Some(q) => r matches Ok(p) && p.0@ == host_with_scheme(q.0, q.1) && p.1 == (match q.2 {
                Some(pt) => pt,
                None => default_port(q.0),
            }),
            None => r is Err,
        },
{
    match parse_url_parts(url) {
        None => Err(UrlError::Invalid),
        Some((scheme, host, port)) => {
            let p: u16 = match port {
                Some(pt) => pt,
                None => {
                    let sc = str_to_chars(scheme.as_str());
                    if chars_eq_str(&sc, "https") {
                        443
                    } else {
                        80
                    }
                },
            };
            let mut cs = str_to_chars(scheme.as_str());
            let mut mid = str_to_chars("://");
            cs.append(&mut mid);
            let mut hc = str_to_chars(host.as_str());
            cs.append(&mut hc);
            proof {
                assert(cs@ =~= host_with_scheme(scheme@, host@));
            }
            Ok((chars_to_string(&cs), p))
        },
    }
}

/// The URL one generation request is posted to.
pub open spec fn spec_generate_url(base: Seq<char>, port: u16) -> Seq<char> {
    base + ":"@ + plain_digits(port as int) + "/api/generate"@
}

pub fn generate_url(base: &str, port: u16) -> (r: String)
    ensures
        r@ == spec_generate_url(base@, port),
{
    let mut cs = str_to_chars(base);
    cs.push(':');
    push_u64_plain(&mut cs, port as u64);
    let mut tail = str_to_chars("/api/generate");
    cs.append(&mut tail);
    proof {
        reveal_strlit(":");
        assert(cs@ =~= spec_generate_url(base@, port));
    }
    chars_to_string(&cs)
}

/// The URL the server's version is fetched from: the configured server
/// text, one trailing slash dropped, then the version path.
pub open spec fn spec_version_url(server: Seq<char>) -> Seq<char> {
    (if server.len() > 0 && server[server.len() - 1] == '/' {
        server.take(server.len() - 1)
    } else {
        server
    }) + "/api/version"@
}

pub fn version_url(server: &str) -> (r: String)
    ensures
        r@ == spec_version_url(server@),
{
    let mut cs = str_to_chars(server);
    let n = cs.len();
    if n > 0 && cs[n - 1] == '/' {
        cs.pop();
        proof {
            assert(cs@ =~= server@.take(server@.len() - 1));
        }
    }
    let mut tail = str_to_chars("/api/version");
    cs.append(&mut tail);
    proof {
        assert(cs@ =~= spec_version_url(server@));
    }
    chars_to_string(&cs)
}

} // verus!
