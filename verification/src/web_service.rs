//! The login endpoint's business logic: credentials in, a discriminated
//! outcome out. Failure to match is a normal result carried in the response
//! body; only a store fault is an error.

use vstd::prelude::*;

use crate::credential_store::{add_token, spec_login, spec_resolve, AuthDb, TokenView};
use crate::errors::StoreError;
use crate::routing::{Route, RouteView, Subtree, SubtreeView};

verus! {

/// The login request body: a username and the secret to compare.
#[derive(Debug)]
pub struct LoginRequest {
    pub username: String,
    pub password: String,
}

/// The login response: a token on success, a reason on failure. Both are
/// business-logic outcomes; neither is a transport error.
#[derive(Debug)]
pub enum LoginResponse {
    Success { token: String },
    Failure { reason: String },
}

/// The reason reported when username and secret match no record.
pub open spec fn invalid_credentials_reason() -> Seq<char> {
    "Invalid username or password"@
}

/// The response reported when username and secret match no record.
pub fn invalid_credentials_response() -> (r: LoginResponse)
    ensures
        r matches LoginResponse::Failure { reason } && reason@ == invalid_credentials_reason(),
{
    LoginResponse::Failure { reason: "Invalid username or password".to_owned() }
}

/// Checks the credentials against the store. A match issues a fresh token
/// owned by the matched user; no match reports failure and leaves the store
/// unchanged; only a store fault during token issue is an error.
pub fn do_login(db: &mut AuthDb, login_request: &LoginRequest) -> (r: Result<
    LoginResponse,
    StoreError,
>)
    ensures
        match spec_login(old(db)@.users, login_request.username@, login_request.password@) {
            None => {
                &&& r matches Ok(LoginResponse::Failure { reason }) && reason@
                    == invalid_credentials_reason()
                &&& final(db)@ == old(db)@
            },
            Some(user_id) => match r {
                Ok(resp) => {
                    &&& resp matches LoginResponse::Success { token }
                    &&& spec_resolve(old(db)@.tokens, token@) is None
                    &&& final(db)@.tokens == old(db)@.tokens.push(
                        TokenView { value: token@, user_id: user_id },
                    )
                    &&& final(db)@.users == old(db)@.users
                    &&& final(db)@.next_id == old(db)@.next_id
                    &&& spec_resolve(final(db)@.tokens, token@) == Some(user_id)
                },
                Err(_) => final(db)@ == old(db)@,
            },
        },
        old(db).wf() ==> final(db).wf(),
{
    let found = crate::credential_store::login(
        db,
        login_request.username.as_str(),
        login_request.password.as_str(),
    );
    match found {
        Some(user_id) => match add_token(db, user_id) {
            Ok(token) => Ok(LoginResponse::Success { token }),
            Err(e) => Err(e),
        },
        None => Ok(invalid_credentials_response()),
    }
}

/// The routes of the authentication service's subtree, in declaration order:
/// login is open to anyone, the user-administration routes run behind the
/// authentication guard.
pub open spec fn auth_routes() -> Seq<RouteView> {
    seq![
        RouteView { path: "/login"@, protected: false },
        RouteView { path: "/users"@, protected: true },
        RouteView { path: "/users/:id"@, protected: true },
        RouteView { path: "/users/delete/:id"@, protected: true },
        RouteView { path: "/users/add"@, protected: true },
        RouteView { path: "/users/update/:id"@, protected: true },
    ]
}

/// Assembles the authentication service's routing subtree. Loading the
/// configuration, opening the storage and migrating its schema are the entry
/// point's work; this fixes which routes exist and which of them the guard
/// protects.
pub fn setup_service() -> (t: Subtree)
    ensures
        t@ == (SubtreeView { routes: auth_routes() }),
{
    let mut routes: Vec<Route> = Vec::new();
    routes.push(Route { path: "/login".to_owned(), protected: false });
    routes.push(Route { path: "/users".to_owned(), protected: true });
    routes.push(Route { path: "/users/:id".to_owned(), protected: true });
    routes.push(Route { path: "/users/delete/:id".to_owned(), protected: true });
    routes.push(Route { path: "/users/add".to_owned(), protected: true });
    routes.push(Route { path: "/users/update/:id".to_owned(), protected: true });
    let subtree = Subtree { routes };
    assert(subtree@.routes =~= auth_routes());
    subtree
}

} // verus!
