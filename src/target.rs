//! The target descriptor, built from a URL, a method and a body.
use vstd::prelude::*;
use vstd::string::{StringExecFns, StringSliceAdditionalSpecFns};
use vstd::utf8::encode_utf8_decode_utf8;
use crate::Payload;
use crate::decimal::decimal_digits;
use crate::simple_http::{bytes_equal, Request};

verus! {

/// What the URI parser makes of a text: `None` where it is no URI, else its
/// scheme, its host, its port and its path.
pub uninterp spec fn url_parts(text: Seq<char>) -> Option<
    (Option<Seq<char>>, Option<Seq<char>>, Option<u16>, Seq<char>),
>;

/// The view of an optional text.
pub open spec fn opt_view(o: Option<String>) -> Option<Seq<char>> {
    match o {
        Some(s) => Some(s@),
        None => None,
    }
}

/// The view of the parts of a URI.
pub open spec fn parts_view(r: Option<(Option<String>, Option<String>, Option<u16>, String)>) -> Option<
    (Option<Seq<char>>, Option<Seq<char>>, Option<u16>, Seq<char>),
> {
    match r {
        Some(p) => Some((opt_view(p.0), opt_view(p.1), p.2, p.3@)),
        None => None,
    }
}

/// Relies on `http::Uri`'s `FromStr` and its accessors `scheme_str`, `host`,
/// `port_u16` and `path`: the parts of a URI text.
#[verifier::external_body]
fn split_url(text: &str) -> (r: Option<(Option<String>, Option<String>, Option<u16>, String)>)
    ensures
        parts_view(r) == url_parts(text@),
{
    match text.parse::<http::Uri>() {
        Ok(u) => Some(
            (u.scheme_str().map(String::from), u.host().map(String::from), u.port_u16(), String::from(u.path())),
        ),
        Err(_) => None,
    }
}

/// Why no target descriptor can be built.
#[derive(Clone, Copy, Debug, PartialEq, Eq, Structural)]
pub enum ConfigError {
    /// The text is no URI.
    InvalidUrl,
    /// The URI has no scheme: it is not absolute.
    NotAbsolute,
    /// The URI names no host.
    MissingHost,
    /// The method is not one of the standard HTTP verbs.
    UnknownMethod,
}

/// The standard HTTP verbs.
pub open spec fn standard_method(m: Seq<char>) -> bool {
    ||| m == "GET"@
    ||| m == "HEAD"@
    ||| m == "POST"@
    ||| m == "PUT"@
    ||| m == "DELETE"@
    ||| m == "CONNECT"@
    ||| m == "OPTIONS"@
    ||| m == "TRACE"@
    ||| m == "PATCH"@
}

/// The decimal digits of a number, as text.
pub open spec fn decimal_text(n: nat) -> Seq<char> {
    decimal_digits(n).map_values(|b: u8| b as char)
}

/// `host`, followed by `:` and the port where there is one.
pub open spec fn authority(host: Seq<char>, port: Option<u16>) -> Seq<char> {
    match port {
        Some(p) => host + seq![':'] + decimal_text(p as nat),
        None => host,
    }
}

/// The descriptor's host, path, method and body for a URL, a method and a body,
/// or why there is none.
pub open spec fn target_of(url: Seq<char>, method: Seq<char>, body: Seq<char>) -> Result<
    (Seq<char>, Seq<char>, Seq<char>, Seq<char>),
    ConfigError,
> {
    match url_parts(url) {
        None => Err(ConfigError::InvalidUrl),
        Some((scheme, host, port, path)) => if scheme is None {
            Err(ConfigError::NotAbsolute)
        } else {
            match host {
                None => Err(ConfigError::MissingHost),
                Some(h) => if !standard_method(method) {
                    Err(ConfigError::UnknownMethod)
                } else {
                    Ok((authority(h, port), path, method, body))
                },
            }
        },
    }
}

/// Whether two texts are the same.
fn same_text(a: &str, b: &str) -> (r: bool)
    ensures
        r == (a@ == b@),
{
    proof {
        encode_utf8_decode_utf8(a@);
        encode_utf8_decode_utf8(b@);
    }
    bytes_equal(a.as_bytes(), b.as_bytes())
}

/// Whether `m` is a standard HTTP verb.
pub fn is_standard_method(m: &str) -> (r: bool)
    ensures
        r == standard_method(m@),
{
    same_text(m, "GET") || same_text(m, "HEAD") || same_text(m, "POST") || same_text(m, "PUT")
        || same_text(m, "DELETE") || same_text(m, "CONNECT") || same_text(m, "OPTIONS")
        || same_text(m, "TRACE") || same_text(m, "PATCH")
}

/// The text of one decimal digit.
fn digit_text(d: usize) -> (r: &'static str)
    requires
        d < 10,
    ensures
        r@ == seq![((48 + d) as u8) as char],
{
    proof {
        reveal_strlit("0");
        reveal_strlit("1");
        reveal_strlit("2");
        reveal_strlit("3");
        reveal_strlit("4");
        reveal_strlit("5");
        reveal_strlit("6");
        reveal_strlit("7");
        reveal_strlit("8");
        reveal_strlit("9");
    }
    match d {
        0 => "0",
        1 => "1",
        2 => "2",
        3 => "3",
        4 => "4",
        5 => "5",
        6 => "6",
        7 => "7",
        8 => "8",
        _ => "9",
    }
}

/// Appends the decimal digits of `n` to `out`.
fn push_decimal_text(out: &mut String, n: usize)
    ensures
        final(out)@ == old(out)@ + decimal_text(n as nat),
    decreases n,
{
    if n < 10 {
        out.append(digit_text(n));
        assert(decimal_text(n as nat) =~= seq![((48 + n) as u8) as char]);
    } else {
        push_decimal_text(out, n / 10);
        out.append(digit_text(n % 10));
        assert(decimal_digits(n as nat) == decimal_digits((n / 10) as nat).push((48 + n % 10) as u8));
        assert(decimal_text(n as nat) =~= decimal_text((n / 10) as nat) + seq![
            ((48 + n % 10) as u8) as char,
        ]);
    }
}

impl Payload {
    /// The descriptor for an absolute URL with a host, a standard method and a
    /// body; a port in the URL is kept in `host` as `host:port`.
    pub fn from_url(url: &str, method: &str, body: &str) -> (r: Result<Payload, ConfigError>)
        ensures
            match target_of(url@, method@, body@) {
                Ok(t) => r matches Ok(p) && p.host@ == t.0 && p.path@ == t.1 && p.method@ == t.2
                    && p.body@ == t.3,
                Err(e) => r == Err::<Payload, ConfigError>(e),
            },
    {
        let (scheme, host, port, path) = match split_url(url) {
            None => {
                return Err(ConfigError::InvalidUrl);
            },
            Some(parts) => parts,
        };
        if scheme.is_none() {
            return Err(ConfigError::NotAbsolute);
        }
        let mut host = match host {
            None => {
                return Err(ConfigError::MissingHost);
            },
            Some(h) => h,
        };
        if !is_standard_method(method) {
            return Err(ConfigError::UnknownMethod);
        }
        if let Some(p) = port {
            host.append(":");
            proof {
                reveal_strlit(":");
            }
            push_decimal_text(&mut host, p as usize);
        }
        Ok(Payload { host, path, method: String::from_str(method), body: String::from_str(body) })
    }

    /// The request sent to the target: its method, path and body, with a `Host`
    /// line and a `Content-Type: application/json` line.
    pub fn request(&self) -> (r: Request)
        ensures
            r.method@ == self.method@,
            r.path@ == self.path@,
            r.body@ == self.body@,
            r.headers@.len() == 2,
            r.headers@[0].0@ == "Host"@,
            r.headers@[0].1@ == self.host@,
            r.headers@[1].0@ == "Content-Type"@,
            r.headers@[1].1@ == "application/json"@,
    {
        let headers = vec![
            (String::from_str("Host"), self.host.clone()),
            (String::from_str("Content-Type"), String::from_str("application/json")),
        ];
        Request {
            method: self.method.clone(),
            path: self.path.clone(),
            headers,
            body: self.body.clone(),
        }
    }
}

} // verus!
