//! The authentication guard: no protected handler runs without a resolved
//! identity. The guard extracts the bearer token from a designated request
//! header, validates it against the credential store, and either forwards
//! the request annotated with the resolved identity or rejects it.

use vstd::prelude::*;

use crate::credential_store::{spec_resolve, AuthDb, StoreView, TokenView, unique_token_values};
use crate::credential_store::get_user_id_from_token;
use crate::errors::StoreError;

verus! {

/// The identity marker attached to a request once the guard has resolved its
/// token: the authenticated user's id. Scoped to one request, never persisted.
#[derive(Clone, Copy, Debug, PartialEq, Eq, Structural)]
pub struct ValidUser(pub i32);

/// The guard's one terminal transition per request.
#[derive(Clone, Copy, Debug, PartialEq, Eq, Structural)]
pub enum GuardOutcome {
    /// The token resolved; the next stage runs with this identity attached.
    Forwarded(ValidUser),
    /// The header is missing or the token is unknown: a bad credential.
    Unauthorized,
    /// The store itself failed: infrastructure trouble, not a bad credential.
    InternalError,
}

/// The view of an optional header value.
pub open spec fn spec_header(header: Option<&str>) -> Option<Seq<char>> {
    match header {
        Some(h) => Some(h@),
        None => None,
    }
}

/// What the guard decides against a store that answered without failing.
pub open spec fn spec_guard(s: StoreView, header: Option<Seq<char>>) -> GuardOutcome {
    match header {
        None => GuardOutcome::Unauthorized,
        Some(t) => match spec_resolve(s.tokens, t) {
            Some(id) => GuardOutcome::Forwarded(ValidUser(id)),
            None => GuardOutcome::Unauthorized,
        },
    }
}

/// The guard's decision, given whether the token header was present and what
/// the store answered when asked to resolve it. A store fault is rejected as
/// infrastructure trouble, distinct from a bad credential; a caller whose
/// header is absent never consults the store and passes any resolution here.
pub fn guard_outcome(header_present: bool, resolution: Result<Option<i32>, StoreError>) -> (r:
    GuardOutcome)
    ensures
        !header_present ==> r == GuardOutcome::Unauthorized,
        header_present ==> match resolution {
            Ok(Some(id)) => r == GuardOutcome::Forwarded(ValidUser(id)),
            Ok(None) => r == GuardOutcome::Unauthorized,
            Err(_) => r == GuardOutcome::InternalError,
        },
{
    if !header_present {
        return GuardOutcome::Unauthorized;
    }
    match resolution {
        Ok(Some(id)) => GuardOutcome::Forwarded(ValidUser(id)),
        Ok(None) => GuardOutcome::Unauthorized,
        Err(_) => GuardOutcome::InternalError,
    }
}

/// Runs the guard against the in-memory credential store: absent header or
/// unknown token is rejected as unauthorized; a resolved token forwards the
/// request with the owning user's identity.
pub fn require_token(db: &AuthDb, header: Option<&str>) -> (r: GuardOutcome)
    ensures
        r == spec_guard(db@, spec_header(header)),
{
    match header {
        None => guard_outcome(false, Ok(None)),
        Some(h) => {
            let resolved = get_user_id_from_token(db, h);
            guard_outcome(true, Ok(resolved))
        },
    }
}

/// The guard rejects a request whose token header is missing, and one whose
/// token value the store does not know, both as unauthorized.
pub proof fn lemma_guard_rejects(s: StoreView, t: Seq<char>)
    ensures
        spec_guard(s, None) == GuardOutcome::Unauthorized,
        spec_resolve(s.tokens, t) is None ==> spec_guard(s, Some(t)) == GuardOutcome::Unauthorized,
{
}

/// The guard forwards a request bearing a token the store has issued, with
/// exactly the identity the token was issued for.
pub proof fn lemma_guard_forwards_issued(s: StoreView, i: int)
    requires
        unique_token_values(s.tokens),
        0 <= i < s.tokens.len(),
    ensures
        spec_guard(s, Some(s.tokens[i].value)) == GuardOutcome::Forwarded(
            ValidUser(s.tokens[i].user_id),
        ),
{
    lemma_resolve_at(s.tokens, i);
}

/// With unique token values, resolving the value of any entry names exactly
/// that entry's owner.
pub proof fn lemma_resolve_at(tokens: Seq<TokenView>, i: int)
    requires
        unique_token_values(tokens),
        0 <= i < tokens.len(),
    ensures
        spec_resolve(tokens, tokens[i].value) == Some(tokens[i].user_id),
    decreases i,
{
    if i > 0 {
        assert(tokens[0].value != tokens[i].value);
        assert(forall|j: int| 0 <= j < tokens.len() - 1 ==> tokens.drop_first()[j] == tokens[j + 1]);
        assert(unique_token_values(tokens.drop_first()));
        lemma_resolve_at(tokens.drop_first(), i - 1);
    }
}

} // verus!
