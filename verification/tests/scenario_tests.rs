use service_framework::auth_layers::ValidUser;
use service_framework::bookstore;
use service_framework::credential_store::{add_user, connect, login, AuthDb, User};
use service_framework::routing::{dispatch, DispatchOutcome, Mount, RootTree};
use service_framework::web_service::{do_login, setup_service, LoginRequest, LoginResponse};

fn deployed_tree() -> RootTree {
    RootTree {
        mounts: vec![
            Mount { prefix: "/api/v1/auth".to_string(), subtree: setup_service() },
            Mount { prefix: "/api/v1/books".to_string(), subtree: bookstore::setup_service() },
        ],
    }
}

fn store_with_alice() -> AuthDb {
    let mut db = connect("auth.db");
    add_user(
        &mut db,
        &User { id: 0, username: "alice".to_string(), password: "secret1".to_string() },
    )
    .unwrap();
    db
}

#[test]
fn issued_token_reaches_a_protected_route() {
    let mut db = store_with_alice();
    let id = login(&db, "alice", "secret1").unwrap();

    let request = LoginRequest { username: "alice".to_string(), password: "secret1".to_string() };
    let token = match do_login(&mut db, &request).unwrap() {
        LoginResponse::Success { token } => token,
        LoginResponse::Failure { .. } => panic!("valid credentials were rejected"),
    };

    let tree = deployed_tree();
    let outcome = dispatch(&tree, &db, "/api/v1/books/add", Some(&token));
    assert_eq!(
        outcome,
        DispatchOutcome::Handled { mount: 1, route: 0, identity: Some(ValidUser(id)) }
    );

    // A protected route of the auth service forwards with the same identity.
    let outcome = dispatch(&tree, &db, "/api/v1/auth/users", Some(&token));
    assert_eq!(
        outcome,
        DispatchOutcome::Handled { mount: 0, route: 1, identity: Some(ValidUser(id)) }
    );

    // An open route needs no identity at all.
    let outcome = dispatch(&tree, &db, "/api/v1/books/", None);
    assert_eq!(outcome, DispatchOutcome::Handled { mount: 1, route: 3, identity: None });
}

#[test]
fn bogus_token_is_rejected_at_a_protected_route() {
    let mut db = store_with_alice();
    let request = LoginRequest { username: "alice".to_string(), password: "secret1".to_string() };
    let _ = do_login(&mut db, &request).unwrap();

    let tree = deployed_tree();
    let outcome = dispatch(&tree, &db, "/api/v1/books/add", Some("bogus"));
    assert_eq!(outcome, DispatchOutcome::Unauthorized);

    // So is a request with no token header at all.
    let outcome = dispatch(&tree, &db, "/api/v1/books/add", None);
    assert_eq!(outcome, DispatchOutcome::Unauthorized);
}

#[test]
fn wrong_secret_yields_a_failure_response_not_an_error() {
    let mut db = store_with_alice();
    let request = LoginRequest { username: "alice".to_string(), password: "wrong".to_string() };
    let response = do_login(&mut db, &request);
    // The outcome is a successful response carrying the failure, never a fault.
    match response.unwrap() {
        LoginResponse::Failure { reason } => {
            assert_eq!(reason, "Invalid username or password");
        },
        LoginResponse::Success { .. } => panic!("wrong credentials were accepted"),
    }
}
