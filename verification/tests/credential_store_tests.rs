use std::collections::HashSet;

use service_framework::credential_store::{
    add_token, add_user, connect, delete_user, get_all_users, get_user, get_user_id_from_token,
    insert_token, login, update_user, User,
};

fn user(name: &str, pw: &str) -> User {
    User { id: 0, username: name.to_string(), password: pw.to_string() }
}

#[test]
fn login_returns_id_of_matching_pair() {
    let mut db = connect("auth.db");
    add_user(&mut db, &user("alice", "secret1")).unwrap();
    add_user(&mut db, &user("bob", "secret2")).unwrap();
    assert_eq!(login(&db, "alice", "secret1"), Some(1));
    assert_eq!(login(&db, "bob", "secret2"), Some(2));
}

#[test]
fn login_returns_none_for_non_matching_pair() {
    let mut db = connect("auth.db");
    add_user(&mut db, &user("alice", "secret1")).unwrap();
    assert_eq!(login(&db, "alice", "wrong"), None);
    assert_eq!(login(&db, "carol", "secret1"), None);
    assert_eq!(login(&db, "alice", ""), None);
}

#[test]
fn duplicate_username_is_a_conflict() {
    let mut db = connect("auth.db");
    add_user(&mut db, &user("alice", "secret1")).unwrap();
    assert!(add_user(&mut db, &user("alice", "other")).is_err());
    assert_eq!(get_all_users(&db).len(), 1);
}

#[test]
fn issued_token_resolves_to_its_owner() {
    let mut db = connect("auth.db");
    add_user(&mut db, &user("alice", "secret1")).unwrap();
    let token = add_token(&mut db, 1).unwrap();
    assert_eq!(get_user_id_from_token(&db, &token), Some(1));
    assert_eq!(get_user_id_from_token(&db, "unknown-token"), None);
}

#[test]
fn thousand_issued_tokens_are_distinct() {
    let mut db = connect("auth.db");
    add_user(&mut db, &user("alice", "secret1")).unwrap();
    let mut seen: HashSet<String> = HashSet::new();
    let mut i: usize = 0;
    while i < 1000 {
        let token = add_token(&mut db, 1).unwrap();
        assert_eq!(get_user_id_from_token(&db, &token), Some(1));
        assert!(seen.insert(token));
        i += 1;
    }
    assert_eq!(seen.len(), 1000);
}

#[test]
fn duplicate_token_value_is_a_conflict() {
    let mut db = connect("auth.db");
    let first = insert_token(&mut db, 1, "T".to_string()).unwrap();
    assert_eq!(first, "T");
    assert!(insert_token(&mut db, 2, "T".to_string()).is_err());
    assert_eq!(get_user_id_from_token(&db, "T"), Some(1));
}

#[test]
fn user_records_are_read_updated_and_deleted() {
    let mut db = connect("auth.db");
    add_user(&mut db, &user("alice", "secret1")).unwrap();
    add_user(&mut db, &user("bob", "secret2")).unwrap();

    let fetched = get_user(&db, 1).unwrap();
    assert_eq!(fetched.id, 1);
    assert_eq!(fetched.username, "alice");
    assert_eq!(fetched.password, "secret1");

    update_user(&mut db, 1, &user("alice2", "secret3")).unwrap();
    let renamed = get_user(&db, 1).unwrap();
    assert_eq!(renamed.username, "alice2");
    assert_eq!(renamed.password, "secret3");
    assert_eq!(login(&db, "alice2", "secret3"), Some(1));
    assert_eq!(login(&db, "alice", "secret1"), None);

    // Taking another user's username is a conflict and changes nothing.
    assert!(update_user(&mut db, 1, &user("bob", "x")).is_err());
    assert_eq!(get_user(&db, 1).unwrap().username, "alice2");

    // Updating a missing id changes nothing and is not a fault.
    update_user(&mut db, 99, &user("ghost", "x")).unwrap();
    assert_eq!(get_all_users(&db).len(), 2);

    delete_user(&mut db, 1).unwrap();
    assert!(get_user(&db, 1).is_none());
    let remaining = get_all_users(&db);
    assert_eq!(remaining.len(), 1);
    assert_eq!(remaining[0].username, "bob");

    // Deleting a missing id changes nothing and is not a fault.
    delete_user(&mut db, 1).unwrap();
    assert_eq!(get_all_users(&db).len(), 1);
}

#[test]
fn deleted_id_is_not_reused() {
    let mut db = connect("auth.db");
    add_user(&mut db, &user("alice", "a")).unwrap();
    delete_user(&mut db, 1).unwrap();
    add_user(&mut db, &user("bob", "b")).unwrap();
    assert_eq!(login(&db, "bob", "b"), Some(2));
}
