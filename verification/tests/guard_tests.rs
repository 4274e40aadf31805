use service_framework::auth_layers::{guard_outcome, require_token, GuardOutcome, ValidUser};
use service_framework::credential_store::{add_token, add_user, connect, User};
use service_framework::errors::StoreError;

fn user(name: &str, pw: &str) -> User {
    User { id: 0, username: name.to_string(), password: pw.to_string() }
}

#[test]
fn missing_header_is_unauthorized() {
    let db = connect("auth.db");
    assert_eq!(require_token(&db, None), GuardOutcome::Unauthorized);
}

#[test]
fn unknown_token_is_unauthorized() {
    let mut db = connect("auth.db");
    add_user(&mut db, &user("alice", "secret1")).unwrap();
    let _ = add_token(&mut db, 1).unwrap();
    assert_eq!(require_token(&db, Some("bogus")), GuardOutcome::Unauthorized);
}

#[test]
fn issued_token_is_forwarded_with_its_identity() {
    let mut db = connect("auth.db");
    add_user(&mut db, &user("alice", "secret1")).unwrap();
    add_user(&mut db, &user("bob", "secret2")).unwrap();
    let token_alice = add_token(&mut db, 1).unwrap();
    let token_bob = add_token(&mut db, 2).unwrap();
    assert_eq!(
        require_token(&db, Some(&token_alice)),
        GuardOutcome::Forwarded(ValidUser(1))
    );
    assert_eq!(
        require_token(&db, Some(&token_bob)),
        GuardOutcome::Forwarded(ValidUser(2))
    );
}

#[test]
fn store_failure_is_internal_error_not_unauthorized() {
    assert_eq!(guard_outcome(true, Err(StoreError)), GuardOutcome::InternalError);
    assert_eq!(guard_outcome(true, Ok(None)), GuardOutcome::Unauthorized);
    assert_eq!(guard_outcome(true, Ok(Some(7))), GuardOutcome::Forwarded(ValidUser(7)));
    assert_eq!(guard_outcome(false, Ok(None)), GuardOutcome::Unauthorized);
    // Without a header the store is never consulted; any resolution is moot.
    assert_eq!(guard_outcome(false, Err(StoreError)), GuardOutcome::Unauthorized);
}
