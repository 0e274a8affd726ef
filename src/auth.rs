//! The bearer-token challenge of the registry API: reading the challenge of
//! a rejected request and asking the token endpoint for a token.
use vstd::prelude::*;

verus! {

/// The status of a request that needs credentials.
pub const UNAUTHORIZED: u16 = 401;

/// Finds the `service` and `scope` of a `WWW-Authenticate` header, in any case,
/// with optional white space after the comma.
pub const CHALLENGE_PATTERN: &'static str = "(?i)service=\"([^\"]+)\",\\s*scope=\"([^\"]+)\"";

/// The first two capture groups of the leftmost match of `pattern` in `text`,
/// when `pattern` compiles, matches, and both groups take part in the match.
pub uninterp spec fn two_groups(pattern: Seq<char>, text: Seq<char>) -> Option<(Seq<char>, Seq<char>)>;

/// Relies on `regex::Regex::new` and `regex::Regex::captures` (with
/// `Captures::get`): what the first two groups of the leftmost match hold.
#[verifier::external_body]
fn capture_two_groups(pattern: &str, text: &str) -> (r: Option<(String, String)>)
    ensures
        r is None <==> two_groups(pattern@, text@) is None,
        r matches Some((a, b)) ==> two_groups(pattern@, text@) == Some((a@, b@)),
{
    let re = regex::Regex::new(pattern).ok()?;
    let caps = re.captures(text)?;
    let service = caps.get(1)?.as_str().to_string();
    let scope = caps.get(2)?.as_str().to_string();
    Some((service, scope))
}

/// What a token must be asked for: the service and the scope.
pub struct AuthChallenge {
    pub service: String,
    pub scope: String,
}

/// A token issued by the token endpoint.
pub struct Token {
    pub token: String,
}

/// A failed token exchange.
#[derive(PartialEq, Eq, Structural, Clone, Copy, Debug)]
pub enum AuthError {
    /// The token endpoint could not be reached.
    TokenEndpointUnreachable,
    /// The token endpoint answered with no token in its body.
    MalformedTokenResponse,
}

impl AuthChallenge {
    /// The service and the scope, as character sequences.
    pub open spec fn spec_pair(&self) -> (Seq<char>, Seq<char>) {
        (self.service@, self.scope@)
    }
}

/// The challenge that the two groups of the challenge pattern give.
pub fn challenge_from_groups(groups: Option<(String, String)>) -> (r: Option<AuthChallenge>)
    ensures
        r is None <==> groups is None,
        r matches Some(c) ==> groups matches Some((a, b)) && c.service@ == a@ && c.scope@ == b@,
{
    match groups {
        Some((service, scope)) => Some(AuthChallenge { service, scope }),
        None => None,
    }
}

/// The challenge of a response: only a `401` whose `WWW-Authenticate`
/// header names a quoted service and scope has one.
pub fn challenge_from(status: u16, www_authenticate: Option<&str>) -> (r: Option<AuthChallenge>)
    ensures
        status != UNAUTHORIZED ==> r is None,
        www_authenticate is None ==> r is None,
        status == UNAUTHORIZED ==> match www_authenticate {
            Some(h) => match two_groups(CHALLENGE_PATTERN@, h@) {
                Some(g) => r matches Some(c) && c.spec_pair() == g,
                None => r is None,
            },
            None => true,
        },
{
    if status != UNAUTHORIZED {
        return None;
    }
    match www_authenticate {
        Some(h) => challenge_from_groups(capture_two_groups(CHALLENGE_PATTERN, h)),
        None => None,
    }
}

/// The value of the `Authorization` header that carries `token`.
pub fn bearer_header(token: &Token) -> (r: String)
    ensures
        r@ == "Bearer "@ + token.token@,
{
    String::from_str("Bearer ").concat(token.token.as_str())
}

} // verus!
