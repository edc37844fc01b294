//! Token-based authentication for the cache server.
use vstd::prelude::*;
use super::config::AuthConfig;
use crate::cache::remote::protocol::AuthHeader;
use crate::graph::contains_str;
use crate::text::views;

verus! {

/// `ts` with later repetitions dropped, after `acc`.
pub open spec fn dedup(ts: Seq<Seq<char>>, acc: Seq<Seq<char>>) -> Seq<Seq<char>>
    decreases ts.len(),
{
    if ts.len() == 0 {
        acc
    } else {
        let acc2 = if acc.contains(ts[0]) {
            acc
        } else {
            acc.push(ts[0])
        };
        dedup(ts.drop_first(), acc2)
    }
}

/// Checks request tokens against the configured ones.
#[derive(Debug)]
pub struct TokenValidator {
    valid_tokens: Vec<String>,
    require_auth: bool,
}

/// The mathematical value of a `TokenValidator`.
pub struct TokenValidatorView {
    /// The distinct tokens, in the order first configured.
    pub tokens: Seq<Seq<char>>,
    pub require_auth: bool,
}

impl View for TokenValidator {
    type V = TokenValidatorView;

    closed spec fn view(&self) -> TokenValidatorView {
        TokenValidatorView { tokens: views(self.valid_tokens@), require_auth: self.require_auth }
    }
}

/// The outcome of checking a token.
#[derive(Debug, Clone, Copy, PartialEq, Eq, Structural)]
pub enum AuthResult {
    Allowed,
    NoToken,
    InvalidToken,
}

/// The outcome for `token`: allowed when authentication is optional and
/// no token is configured, or when the token is configured; else no token
/// (an empty one) or an invalid one.
pub open spec fn auth_outcome(v: TokenValidatorView, token: Seq<char>) -> AuthResult {
    if !v.require_auth && v.tokens.len() == 0 {
        AuthResult::Allowed
    } else if v.tokens.contains(token) {
        AuthResult::Allowed
    } else if token.len() == 0 {
        AuthResult::NoToken
    } else {
        AuthResult::InvalidToken
    }
}

impl TokenValidator {
    /// A validator for the tokens and requirement of `config`.
    pub fn new(config: &AuthConfig) -> (v: Self)
        ensures
            v@.tokens == dedup(views(config.tokens@), Seq::empty()),
            v@.require_auth == config.require_auth,
    {
        let ghost goal = dedup(views(config.tokens@), Seq::empty());
        let mut toks: Vec<String> = Vec::new();
        let mut i: usize = 0;
        proof {
            assert(views(config.tokens@).skip(0) =~= views(config.tokens@));
            assert(views(toks@) =~= Seq::<Seq<char>>::empty());
        }
        while i < config.tokens.len()
            invariant
                i <= config.tokens@.len(),
                goal == dedup(views(config.tokens@), Seq::empty()),
                goal == dedup(views(config.tokens@).skip(i as int), views(toks@)),
            decreases config.tokens.len() - i,
        {
            let t = &config.tokens[i];
            proof {
                let sk = views(config.tokens@).skip(i as int);
                assert(sk[0] == t@);
                assert(sk.drop_first() =~= views(config.tokens@).skip(i + 1));
            }
            if !contains_str(&toks, t.as_str()) {
                let ghost t0 = toks@;
                toks.push(t.clone());
                proof {
                    assert(views(toks@) =~= views(t0).push(t@));
                }
            }
            i = i + 1;
        }
        proof {
            assert(views(config.tokens@).skip(i as int) =~= Seq::<Seq<char>>::empty());
        }
        TokenValidator { valid_tokens: toks, require_auth: config.require_auth }
    }

    /// Checks the token of a request.
    pub fn validate(&self, auth: &AuthHeader) -> (r: AuthResult)
        ensures
            r == auth_outcome(self@, auth.token@),
    {
        if !self.require_auth && self.valid_tokens.len() == 0 {
            return AuthResult::Allowed;
        }
        if contains_str(&self.valid_tokens, auth.token.as_str()) {
            AuthResult::Allowed
        } else if crate::text::chars_of(auth.token.as_str()).len() == 0 {
            AuthResult::NoToken
        } else {
            AuthResult::InvalidToken
        }
    }

    /// Whether authentication is required.
    pub fn is_required(&self) -> (b: bool)
        ensures
            b == self@.require_auth,
    {
        self.require_auth
    }

    /// The number of distinct valid tokens.
    pub fn token_count(&self) -> (n: usize)
        ensures
            n == self@.tokens.len(),
    {
        self.valid_tokens.len()
    }
}

impl AuthResult {
    /// Whether the request is allowed.
    pub fn is_allowed(&self) -> (b: bool)
        ensures
            b == (*self == AuthResult::Allowed),
    {
        match self {
            AuthResult::Allowed => true,
            _ => false,
        }
    }
}

/// A token that the configuration lists is always accepted, whatever the
/// requirement says.
pub proof fn law_configured_token_allowed(config_tokens: Seq<Seq<char>>, require_auth: bool, token: Seq<char>)
    requires
        config_tokens.contains(token),
    ensures
        auth_outcome(
            TokenValidatorView { tokens: dedup(config_tokens, Seq::empty()), require_auth },
            token,
        ) == AuthResult::Allowed,
{
    lemma_dedup_contains(config_tokens, Seq::empty(), token);
}

/// A token is kept by `dedup` if it occurs in the input or the accumulator.
pub proof fn lemma_dedup_contains(ts: Seq<Seq<char>>, acc: Seq<Seq<char>>, t: Seq<char>)
    requires
        ts.contains(t) || acc.contains(t),
    ensures
        dedup(ts, acc).contains(t),
    decreases ts.len(),
{
    if ts.len() > 0 {
        let acc2 = if acc.contains(ts[0]) {
            acc
        } else {
            acc.push(ts[0])
        };
        if acc.contains(t) {
            let j = choose|j: int| 0 <= j < acc.len() && acc[j] == t;
            assert(acc2[j] == t);
        } else if ts[0] == t {
            if !acc.contains(ts[0]) {
                assert(acc2[acc.len() as int] == t);
            }
        } else {
            let j = choose|j: int| 0 <= j < ts.len() && ts[j] == t;
            assert(ts.drop_first()[j - 1] == t);
        }
        lemma_dedup_contains(ts.drop_first(), acc2, t);
    }
}

} // verus!
