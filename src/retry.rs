//! The exchange of one registry request: the request goes out without
//! credentials; a `401` with a challenge has a token fetched and the request
//! sent once more with it; the answer after that is final.
use vstd::prelude::*;

use crate::auth::{
    bearer_header, challenge_from, two_groups, AuthError, Token, CHALLENGE_PATTERN, UNAUTHORIZED,
};
use crate::registry::{Catalog, RegistryError};

verus! {

/// Where the exchange stands.
#[derive(PartialEq, Eq, Structural, Clone, Copy, Debug)]
pub enum Phase {
    /// The request went out without credentials.
    FirstAttempt,
    /// The token endpoint was asked for a token.
    AwaitingToken,
    /// The request went out again with a token.
    Retried,
    /// The exchange is over.
    Done,
}

impl Phase {
    /// How many more requests the exchange may still send at most.
    pub open spec fn rank(self) -> nat {
        match self {
            Phase::FirstAttempt => 2,
            Phase::AwaitingToken => 1,
            Phase::Retried => 0,
            Phase::Done => 0,
        }
    }
}

/// What happened since the last action.
pub enum Event {
    /// The registry answered the request with a status and, maybe, a
    /// `WWW-Authenticate` header.
    Responded { status: u16, www_authenticate: Option<String> },
    /// The token endpoint answered with a token.
    TokenIssued(Token),
    /// The token endpoint answered with a body that holds no token.
    TokenMalformed,
    /// The request could not be carried out.
    Unreachable,
}

/// What to do next.
pub enum Action {
    /// Send a GET to `url`, with an `Authorization` header where one is given.
    Get { url: String, authorization: Option<String> },
    /// The last answer of the registry is the final one.
    Finish,
    /// The exchange failed.
    Fail(RegistryError),
}

/// `a` is a GET of `url` with the header `auth`.
pub open spec fn is_get(a: Action, url: Seq<char>, auth: Option<Seq<char>>) -> bool {
    match a {
        Action::Get { url: u, authorization } => u@ == url && match authorization {
            Some(x) => auth == Some(x@),
            None => auth is None,
        },
        _ => false,
    }
}

/// The token endpoint's address for a service and a scope.
pub open spec fn token_url(base: Seq<char>, service: Seq<char>, scope: Seq<char>) -> Seq<char> {
    base + "/v2/token?service="@ + service + "&scope="@ + scope
}

/// The state of one exchange with the registry.
pub struct AuthRetry {
    /// The registry's base address.
    pub base: String,
    /// The address of the request.
    pub url: String,
    pub phase: Phase,
}

impl AuthRetry {
    /// Starts the exchange: the request goes out without credentials.
    pub fn new(base: String, url: String) -> (r: (AuthRetry, Action))
        ensures
            r.0.phase == Phase::FirstAttempt,
            r.0.base == base,
            r.0.url == url,
            is_get(r.1, url@, None),
    {
        let first = Action::Get { url: url.clone(), authorization: None };
        (AuthRetry { base, url, phase: Phase::FirstAttempt }, first)
    }

    /// The next action, on what happened.
    pub fn step(&mut self, event: Event) -> (r: Action)
        ensures
            final(self).base == old(self).base,
            final(self).url == old(self).url,
            r is Get ==> final(self).phase.rank() < old(self).phase.rank(),
            !(r is Get) ==> final(self).phase == Phase::Done,
            match (old(self).phase, event) {
                (Phase::FirstAttempt, Event::Responded { status, www_authenticate }) => {
                    if status == UNAUTHORIZED && www_authenticate is Some && two_groups(
                        CHALLENGE_PATTERN@,
                        www_authenticate.unwrap()@,
                    ) is Some {
                        let g = two_groups(CHALLENGE_PATTERN@, www_authenticate.unwrap()@).unwrap();
                        &&& final(self).phase == Phase::AwaitingToken
                        &&& is_get(r, token_url(old(self).base@, g.0, g.1), None)
                    } else {
                        final(self).phase == Phase::Done && r is Finish
                    }
                },
                (Phase::AwaitingToken, Event::TokenIssued(t)) => {
                    &&& final(self).phase == Phase::Retried
                    &&& is_get(r, old(self).url@, Some("Bearer "@ + t.token@))
                },
                (Phase::AwaitingToken, Event::TokenMalformed) => final(self).phase == Phase::Done
                    && r == Action::Fail(RegistryError::Auth(AuthError::MalformedTokenResponse)),
                (Phase::AwaitingToken, Event::Unreachable) => final(self).phase == Phase::Done && r
                    == Action::Fail(RegistryError::Auth(AuthError::TokenEndpointUnreachable)),
                (Phase::FirstAttempt, Event::Unreachable) => final(self).phase == Phase::Done && r
                    == Action::Fail(RegistryError::Transport),
                (Phase::Retried, Event::Unreachable) => final(self).phase == Phase::Done && r
                    == Action::Fail(RegistryError::Transport),
                (Phase::Retried, Event::Responded { .. }) => final(self).phase == Phase::Done
                    && r is Finish,
                _ => final(self).phase == Phase::Done && r == Action::Fail(
                    RegistryError::OutOfSequence,
                ),
            },
    {
        let phase = self.phase;
        self.phase = Phase::Done;
        match (phase, event) {
            (Phase::FirstAttempt, Event::Responded { status, www_authenticate }) => {
                let header = match &www_authenticate {
                    Some(h) => Some(h.as_str()),
                    None => None,
                };
                match challenge_from(status, header) {
                    Some(c) => {
                        self.phase = Phase::AwaitingToken;
                        let url = Catalog::get_token_url(
                            self.base.as_str(),
                            c.service.as_str(),
                            c.scope.as_str(),
                        );
                        Action::Get { url, authorization: None }
                    },
                    None => Action::Finish,
                }
            },
            (Phase::AwaitingToken, Event::TokenIssued(t)) => {
                self.phase = Phase::Retried;
                Action::Get { url: self.url.clone(), authorization: Some(bearer_header(&t)) }
            },
            (Phase::AwaitingToken, Event::TokenMalformed) => Action::Fail(
                RegistryError::Auth(AuthError::MalformedTokenResponse),
            ),
            (Phase::AwaitingToken, Event::Unreachable) => Action::Fail(
                RegistryError::Auth(AuthError::TokenEndpointUnreachable),
            ),
            (Phase::FirstAttempt, Event::Unreachable) => Action::Fail(RegistryError::Transport),
            (Phase::Retried, Event::Unreachable) => Action::Fail(RegistryError::Transport),
            (Phase::Retried, Event::Responded { .. }) => Action::Finish,
            _ => Action::Fail(RegistryError::OutOfSequence),
        }
    }
}

} // verus!
