use vstd::prelude::*;

verus! {

/// The HTTP method of an outgoing request, as the guest states it.
pub enum WitMethod {
    Get,
    Head,
    Post,
    Put,
    Delete,
    Connect,
    Options,
    Trace,
    Patch,
    Other(String),
}

/// Errors of the outbound HTTP capability, as delivered to the guest.
#[derive(PartialEq, Eq, Debug)]
pub enum OutboundError {
    /// The method is not a valid HTTP token.
    HttpRequestMethodInvalid,
    /// Any other failure, with its message.
    InternalError(Option<String>),
}

#[verifier::external_type_specification]
#[verifier::external_body]
pub struct ExInvalidMethod(http::method::InvalidMethod);

/// A character allowed in an HTTP token.
pub open spec fn is_tchar(c: char) -> bool {
    ('0' <= c && c <= '9') || ('a' <= c && c <= 'z') || ('A' <= c && c <= 'Z') || c == '!' || c == '#'
        || c == '$' || c == '%' || c == '&' || c == '\'' || c == '*' || c == '+' || c == '-' || c == '.'
        || c == '^' || c == '_' || c == '`' || c == '|' || c == '~'
}

/// A valid method name: a non-empty token.
pub open spec fn is_method_token(s: Seq<char>) -> bool {
    s.len() > 0 && forall|i: int| 0 <= i < s.len() ==> is_tchar(#[trigger] s[i])
}

/// The method name sent upstream for `m`, if it has one.
pub open spec fn method_name(m: WitMethod) -> Option<Seq<char>> {
    match m {
        WitMethod::Get => Some("GET"@),
        WitMethod::Head => Some("HEAD"@),
        WitMethod::Post => Some("POST"@),
        WitMethod::Put => Some("PUT"@),
        WitMethod::Delete => Some("DELETE"@),
        WitMethod::Connect => Some("CONNECT"@),
        WitMethod::Options => Some("OPTIONS"@),
        WitMethod::Trace => Some("TRACE"@),
        WitMethod::Patch => Some("PATCH"@),
        WitMethod::Other(s) => if is_method_token(s@) {
            Some(s@)
        } else {
            None
        },
    }
}

/// Relies on `http::Method::from_bytes`: it accepts exactly the non-empty
/// byte strings made of token characters, and the method keeps those bytes
/// as its name.
#[verifier::external_body]
fn parse_method(token: &str) -> (r: Result<String, http::method::InvalidMethod>)
    ensures
        r is Ok <==> is_method_token(token@),
        r is Ok ==> r->Ok_0@ == token@,
{
    http::Method::from_bytes(token.as_bytes()).map(|m| m.as_str().to_owned())
}

/// The method name an upstream request carries for `m`: the canonical name
/// of each standard method, or the guest's own token, which must be valid.
pub fn method_token(m: &WitMethod) -> (r: Result<String, OutboundError>)
    ensures
        r is Ok <==> method_name(*m) is Some,
        r is Ok ==> r->Ok_0@ == method_name(*m)->Some_0,
        r is Err ==> r == Err::<String, OutboundError>(OutboundError::HttpRequestMethodInvalid),
{
    match m {
        WitMethod::Get => Ok("GET".to_owned()),
        WitMethod::Head => Ok("HEAD".to_owned()),
        WitMethod::Post => Ok("POST".to_owned()),
        WitMethod::Put => Ok("PUT".to_owned()),
        WitMethod::Delete => Ok("DELETE".to_owned()),
        WitMethod::Connect => Ok("CONNECT".to_owned()),
        WitMethod::Options => Ok("OPTIONS".to_owned()),
        WitMethod::Trace => Ok("TRACE".to_owned()),
        WitMethod::Patch => Ok("PATCH".to_owned()),
        WitMethod::Other(s) => match parse_method(s.as_str()) {
            Ok(t) => Ok(t),
            Err(_) => Err(OutboundError::HttpRequestMethodInvalid),
        },
    }
}

} // verus!
