//! The calls into the HTTP client crate that request construction relies on.
use vstd::prelude::*;

verus! {

/// Whether the text parses as an absolute URL.
pub uninterp spec fn url_parses(s: Seq<char>) -> bool;

/// A token character of an HTTP method name.
pub open spec fn is_tchar(c: char) -> bool {
    ('a' <= c && c <= 'z') || ('A' <= c && c <= 'Z') || ('0' <= c && c <= '9') || c == '!'
        || c == '#' || c == '$' || c == '%' || c == '&' || c == '\'' || c == '*' || c == '+'
        || c == '-' || c == '.' || c == '^' || c == '_' || c == '`' || c == '|' || c == '~'
}

/// A method name is a non-empty run of token characters.
pub open spec fn is_method_token(s: Seq<char>) -> bool {
    s.len() > 0 && forall|i: int| 0 <= i < s.len() ==> is_tchar(#[trigger] s[i])
}

/// Relies on url's `Url::parse`, re-exported by reqwest: it accepts the text
/// or not, by the text alone.
#[verifier::external_body]
pub(crate) fn url_is_valid(s: &str) -> (r: bool)
    ensures
        r == url_parses(s@),
{
    reqwest::Url::parse(s).is_ok()
}

/// Relies on http's `Method::from_bytes`, re-exported by reqwest: it accepts
/// exactly the non-empty byte strings made of token characters.
#[verifier::external_body]
pub(crate) fn method_is_token(s: &str) -> (r: bool)
    ensures
        r == is_method_token(s@),
{
    reqwest::Method::from_bytes(s.as_bytes()).is_ok()
}

/// The HTTP methods that requests may use.
pub open spec fn is_known_method(s: Seq<char>) -> bool {
    s == "GET"@ || s == "HEAD"@ || s == "POST"@ || s == "PUT"@ || s == "DELETE"@ || s
        == "CONNECT"@ || s == "OPTIONS"@ || s == "TRACE"@ || s == "PATCH"@
}

/// Whether `m` is one of the known HTTP methods.
pub fn known_method(m: &String) -> (r: bool)
    ensures
        r == is_known_method(m@),
{
    *m == "GET".to_owned() || *m == "HEAD".to_owned() || *m == "POST".to_owned() || *m
        == "PUT".to_owned() || *m == "DELETE".to_owned() || *m == "CONNECT".to_owned() || *m
        == "OPTIONS".to_owned() || *m == "TRACE".to_owned() || *m == "PATCH".to_owned()
}

} // verus!
