//! The credential store: a table of user records and a table of issued
//! bearer tokens, with verified lookup, insert, update and delete operations.
//!
//! The store keeps two invariants that the persistent schema of the original
//! tables enforced with constraints: user ids and usernames are unique, and a
//! token value, once issued, belongs to exactly one user until it is deleted.

use vstd::prelude::*;

use crate::errors::StoreError;
use crate::text::str_eq;

verus! {

/// A user record: a store-assigned unique id, a unique username, and the
/// opaque secret compared at login.
pub struct User {
    pub id: i32,
    pub username: String,
    pub password: String,
}

/// The mathematical value of a `User`.
pub ghost struct UserView {
    pub id: i32,
    pub username: Seq<char>,
    pub password: Seq<char>,
}

impl View for User {
    type V = UserView;

    open spec fn view(&self) -> UserView {
        UserView { id: self.id, username: self.username@, password: self.password@ }
    }
}

impl Clone for User {
    fn clone(&self) -> (r: Self)
        ensures
            r@ == self@,
    {
        User { id: self.id, username: self.username.clone(), password: self.password.clone() }
    }
}

/// An issued bearer token: the opaque value and the owning user's id.
pub struct Token {
    pub value: String,
    pub user_id: i32,
}

/// The mathematical value of a `Token`.
pub ghost struct TokenView {
    pub value: Seq<char>,
    pub user_id: i32,
}

impl View for Token {
    type V = TokenView;

    open spec fn view(&self) -> TokenView {
        TokenView { value: self.value@, user_id: self.user_id }
    }
}

/// The mathematical value of the whole store.
pub ghost struct StoreView {
    pub users: Seq<UserView>,
    pub tokens: Seq<TokenView>,
    pub next_id: i32,
}

/// No two user records share an id.
pub open spec fn unique_ids(users: Seq<UserView>) -> bool {
    forall|i: int, j: int| 0 <= i < j < users.len() ==> users[i].id != users[j].id
}

/// No two user records share a username.
pub open spec fn unique_usernames(users: Seq<UserView>) -> bool {
    forall|i: int, j: int| 0 <= i < j < users.len() ==> users[i].username != users[j].username
}

/// No two issued tokens share a value.
pub open spec fn unique_token_values(tokens: Seq<TokenView>) -> bool {
    forall|i: int, j: int| 0 <= i < j < tokens.len() ==> tokens[i].value != tokens[j].value
}

/// Every user id lies below the id the store would assign next.
pub open spec fn ids_below(users: Seq<UserView>, bound: i32) -> bool {
    forall|i: int| 0 <= i < users.len() ==> users[i].id < bound
}

/// Well-formedness of the store.
pub open spec fn store_wf(s: StoreView) -> bool {
    &&& unique_ids(s.users)
    &&& unique_usernames(s.users)
    &&& unique_token_values(s.tokens)
    &&& ids_below(s.users, s.next_id)
}

/// The id of the first user record matching both username and secret,
/// if any; `None` when no record matches.
pub open spec fn spec_login(users: Seq<UserView>, username: Seq<char>, password: Seq<char>) -> Option<i32>
    decreases users.len(),
{
    if users.len() == 0 {
        None
    } else if users[0].username == username && users[0].password == password {
        Some(users[0].id)
    } else {
        spec_login(users.drop_first(), username, password)
    }
}

/// The owner of the first token with the given value, if any.
pub open spec fn spec_resolve(tokens: Seq<TokenView>, value: Seq<char>) -> Option<i32>
    decreases tokens.len(),
{
    if tokens.len() == 0 {
        None
    } else if tokens[0].value == value {
        Some(tokens[0].user_id)
    } else {
        spec_resolve(tokens.drop_first(), value)
    }
}

/// The position of the first user record with the given id, if any.
pub open spec fn spec_find_user(users: Seq<UserView>, id: i32) -> Option<int>
    decreases users.len(),
{
    if users.len() == 0 {
        None
    } else if users[0].id == id {
        Some(0int)
    } else {
        match spec_find_user(users.drop_first(), id) {
            Some(i) => Some(i + 1),
            None => None,
        }
    }
}

/// Whether some user record carries the given username.
pub open spec fn spec_has_username(users: Seq<UserView>, username: Seq<char>) -> bool {
    exists|i: int| 0 <= i < users.len() && users[i].username == username
}

/// The views of a sequence of user records.
pub open spec fn user_views(users: Seq<User>) -> Seq<UserView> {
    users.map_values(|u: User| u@)
}

/// The views of a sequence of tokens.
pub open spec fn token_views(tokens: Seq<Token>) -> Seq<TokenView> {
    tokens.map_values(|t: Token| t@)
}

/// The in-memory credential store. It exclusively owns the user and token
/// records; callers reach them only through the operations below.
pub struct AuthDb {
    users: Vec<User>,
    tokens: Vec<Token>,
    next_id: i32,
}

impl View for AuthDb {
    type V = StoreView;

    closed spec fn view(&self) -> StoreView {
        StoreView {
            users: user_views(self.users@),
            tokens: token_views(self.tokens@),
            next_id: self.next_id,
        }
    }
}

impl AuthDb {
    /// Whether the store's invariants hold.
    pub open spec fn wf(&self) -> bool {
        store_wf(self@)
    }
}

/// Opens a fresh, empty credential store for the given locator; the
/// persistent schema and contents behind it are the storage collaborator's
/// concern.
pub fn connect(_locator: &str) -> (db: AuthDb)
    ensures
        db@.users =~= Seq::<UserView>::empty(),
        db@.tokens =~= Seq::<TokenView>::empty(),
        db@.next_id == 1,
        db.wf(),
{
    let db = AuthDb { users: Vec::new(), tokens: Vec::new(), next_id: 1 };
    assert(db@.users =~= Seq::<UserView>::empty());
    assert(db@.tokens =~= Seq::<TokenView>::empty());
    db
}

/// If username and secret match a record, its user id; `None` when nothing
/// matches — absence of a match is a normal outcome, never an error.
pub fn login(db: &AuthDb, username: &str, password: &str) -> (r: Option<i32>)
    ensures
        r == spec_login(db@.users, username@, password@),
{
    let ghost all = db@.users;
    let n = db.users.len();
    let mut i: usize = 0;
    assert(all.skip(0) =~= all);
    while i < n
        invariant
            n == db.users@.len(),
            all == db@.users,
            i <= n,
            spec_login(all, username@, password@)
                == spec_login(all.skip(i as int), username@, password@),
        decreases n - i,
    {
        let u = &db.users[i];
        assert(all.skip(i as int)[0] == all[i as int]);
        if str_eq(u.username.as_str(), username) && str_eq(u.password.as_str(), password) {
            return Some(u.id);
        }
        assert(all.skip(i as int).drop_first() =~= all.skip(i as int + 1));
        i += 1;
    }
    assert(all.skip(n as int) =~= Seq::<UserView>::empty());
    None
}

/// The owning user of a token value; `None` when the token is unknown.
pub fn get_user_id_from_token(db: &AuthDb, token: &str) -> (r: Option<i32>)
    ensures
        r == spec_resolve(db@.tokens, token@),
{
    let ghost all = db@.tokens;
    let n = db.tokens.len();
    let mut i: usize = 0;
    assert(all.skip(0) =~= all);
    while i < n
        invariant
            n == db.tokens@.len(),
            all == db@.tokens,
            i <= n,
            spec_resolve(all, token@) == spec_resolve(all.skip(i as int), token@),
        decreases n - i,
    {
        let t = &db.tokens[i];
        assert(all.skip(i as int)[0] == all[i as int]);
        if str_eq(t.value.as_str(), token) {
            return Some(t.user_id);
        }
        assert(all.skip(i as int).drop_first() =~= all.skip(i as int + 1));
        i += 1;
    }
    assert(all.skip(n as int) =~= Seq::<TokenView>::empty());
    None
}

/// Persists the pair of the given token value and owner, unless the value is
/// already issued: a token value resolves to exactly one user id. Returns the
/// value back on success.
pub fn insert_token(db: &mut AuthDb, user_id: i32, value: String) -> (r: Result<String, StoreError>)
    ensures
        match r {
            Ok(t) => {
                &&& spec_resolve(old(db)@.tokens, value@) is None
                &&& t@ == value@
                &&& final(db)@.tokens == old(db)@.tokens.push(TokenView { value: value@, user_id: user_id })
                &&& final(db)@.users == old(db)@.users
                &&& final(db)@.next_id == old(db)@.next_id
            },
            Err(_) => {
                &&& spec_resolve(old(db)@.tokens, value@) is Some
                &&& final(db)@ == old(db)@
            },
        },
        old(db).wf() ==> final(db).wf(),
{
    if get_user_id_from_token(db, value.as_str()).is_some() {
        return Err(StoreError);
    }
    proof {
        lemma_resolve_none_not_contained(db@.tokens, value@);
    }
    let ghost pre = db@;
    db.tokens.push(Token { value: value.clone(), user_id });
    assert(db@.tokens =~= pre.tokens.push(TokenView { value: value@, user_id: user_id }));
    assert(db@.users =~= pre.users);
    proof {
        if store_wf(pre) {
            lemma_unique_after_fresh_push(pre.tokens, TokenView { value: value@, user_id: user_id });
        }
    }
    Ok(value)
}

/// Relies on uuid::Uuid::new_v4 and its Display form: a freshly generated
/// random identifier, rendered as an opaque string. Nothing is promised of
/// the value; the store checks it for uniqueness itself.
#[verifier::external_body]
fn fresh_token_value() -> String {
    uuid::Uuid::new_v4().to_string()
}

/// Generates a fresh opaque token value, persists the pair of the value and
/// the owning user id, and returns the value. When the generated value
/// collides with one already issued — the one outcome of the generator the
/// store cannot rule out — the store reports a fault and stays unchanged.
pub fn add_token(db: &mut AuthDb, user_id: i32) -> (r: Result<String, StoreError>)
    ensures
        match r {
            Ok(t) => {
                &&& spec_resolve(old(db)@.tokens, t@) is None
                &&& final(db)@.tokens == old(db)@.tokens.push(TokenView { value: t@, user_id: user_id })
                &&& final(db)@.users == old(db)@.users
                &&& final(db)@.next_id == old(db)@.next_id
                &&& spec_resolve(final(db)@.tokens, t@) == Some(user_id)
            },
            Err(_) => final(db)@ == old(db)@,
        },
        old(db).wf() ==> final(db).wf(),
{
    let ghost pre = db@;
    let value = fresh_token_value();
    let r = insert_token(db, user_id, value);
    proof {
        match &r {
            Ok(t) => lemma_issued_token_resolves(pre.tokens, TokenView { value: t@, user_id: user_id }),
            Err(_) => (),
        }
    }
    r
}

/// Returns a copy of every user record.
pub fn get_all_users(db: &AuthDb) -> (r: Vec<User>)
    ensures
        user_views(r@) == db@.users,
{
    let n = db.users.len();
    let mut out: Vec<User> = Vec::new();
    let mut i: usize = 0;
    while i < n
        invariant
            n == db.users@.len(),
            i <= n,
            user_views(out@) =~= db@.users.take(i as int),
        decreases n - i,
    {
        let u = db.users[i].clone();
        out.push(u);
        assert(user_views(out@) =~= db@.users.take(i as int).push(db@.users[i as int]));
        assert(db@.users.take(i as int).push(db@.users[i as int]) =~= db@.users.take(i as int + 1));
        i += 1;
    }
    assert(db@.users.take(n as int) =~= db@.users);
    out
}

/// The position of the first record with the given id, found by a scan.
fn find_user_index(db: &AuthDb, user_id: i32) -> (r: Option<usize>)
    ensures
        match r {
            Some(i) => spec_find_user(db@.users, user_id) == Some(i as int) && i
                < db@.users.len() && db@.users[i as int].id == user_id,
            None => spec_find_user(db@.users, user_id) is None,
        },
{
    let ghost all = db@.users;
    let n = db.users.len();
    let mut i: usize = 0;
    while i < n
        invariant
            n == db.users@.len(),
            all == db@.users,
            i <= n,
            forall|j: int| 0 <= j < i ==> all[j].id != user_id,
        decreases n - i,
    {
        assert(all[i as int] == db.users@[i as int]@);
        if db.users[i].id == user_id {
            proof {
                lemma_find_user_prefix(all, user_id, i as int);
            }
            return Some(i);
        }
        i += 1;
    }
    proof {
        lemma_find_user_prefix(all, user_id, n as int);
    }
    None
}

/// Returns a copy of the first user record with the given id, if any.
pub fn get_user(db: &AuthDb, user_id: i32) -> (r: Option<User>)
    ensures
        match r {
            Some(u) => spec_find_user(db@.users, user_id) matches Some(i) && db@.users[i] == u@,
            None => spec_find_user(db@.users, user_id) is None,
        },
{
    match find_user_index(db, user_id) {
        Some(i) => Some(db.users[i].clone()),
        None => None,
    }
}

/// Relates the first id match in a suffix to the first match overall.
proof fn lemma_find_user_prefix(users: Seq<UserView>, id: i32, i: int)
    requires
        0 <= i <= users.len(),
        forall|j: int| 0 <= j < i ==> users[j].id != id,
    ensures
        i < users.len() && users[i].id == id ==> spec_find_user(users, id) == Some(i),
        i == users.len() ==> spec_find_user(users, id) is None,
    decreases i,
{
    if i > 0 {
        assert(users[0].id != id);
        lemma_find_user_prefix(users.drop_first(), id, i - 1);
        assert(forall|j: int| 0 <= j < users.len() - 1 ==> users.drop_first()[j] == users[j + 1]);
    }
}

/// Deletes the user record with the given id, if present; the other records
/// keep their order.
pub fn delete_user(db: &mut AuthDb, user_id: i32) -> (r: Result<(), StoreError>)
    ensures
        r is Ok,
        match spec_find_user(old(db)@.users, user_id) {
            Some(i) => final(db)@.users == old(db)@.users.remove(i),
            None => final(db)@.users == old(db)@.users,
        },
        final(db)@.tokens == old(db)@.tokens,
        final(db)@.next_id == old(db)@.next_id,
        old(db).wf() ==> final(db).wf(),
{
    let ghost pre = db@;
    match find_user_index(db, user_id) {
        Some(i) => {
            db.users.remove(i);
            assert(db@.users =~= pre.users.remove(i as int));
            assert(db@.tokens =~= pre.tokens);
            proof {
                if store_wf(pre) {
                    lemma_wf_after_user_remove(pre, i as int);
                }
            }
            Ok(())
        },
        None => Ok(()),
    }
}

/// Removing one user record preserves the store invariants.
proof fn lemma_wf_after_user_remove(s: StoreView, i: int)
    requires
        store_wf(s),
        0 <= i < s.users.len(),
    ensures
        store_wf(StoreView { users: s.users.remove(i), tokens: s.tokens, next_id: s.next_id }),
{
    let users = s.users.remove(i);
    assert forall|a: int, b: int| 0 <= a < b < users.len() implies users[a].id != users[b].id
        && users[a].username != users[b].username by {
        let a0 = if a < i { a } else { a + 1 };
        let b0 = if b < i { b } else { b + 1 };
        assert(users[a] == s.users[a0]);
        assert(users[b] == s.users[b0]);
    }
    assert forall|a: int| 0 <= a < users.len() implies users[a].id < s.next_id by {
        let a0 = if a < i { a } else { a + 1 };
        assert(users[a] == s.users[a0]);
    }
}

/// Rewrites the username and secret of the user record with the given id.
/// Updating a missing id changes nothing. Taking a username that another
/// user already carries is a storage fault: usernames stay unique.
pub fn update_user(db: &mut AuthDb, user_id: i32, user: &User) -> (r: Result<(), StoreError>)
    ensures
        match spec_find_user(old(db)@.users, user_id) {
            None => r is Ok && final(db)@ == old(db)@,
            Some(i) => {
                if exists|j: int|
                    0 <= j < old(db)@.users.len() && j != i
                        && old(db)@.users[j].username == user.username@ {
                    r is Err && final(db)@ == old(db)@
                } else {
                    r is Ok && final(db)@.users == old(db)@.users.update(
                        i,
                        UserView { id: user_id, username: user.username@, password: user.password@ },
                    ) && final(db)@.tokens == old(db)@.tokens
                        && final(db)@.next_id == old(db)@.next_id
                }
            },
        },
        old(db).wf() ==> final(db).wf(),
{
    let ghost pre = db@;
    let n = db.users.len();

    let idx: usize = match find_user_index(db, user_id) {
        Some(i) => i,
        None => {
            return Ok(());
        },
    };

    // Reject a username that a different record already carries.
    let mut j: usize = 0;
    while j < n
        invariant
            n == db.users@.len(),
            pre == db@,
            pre == old(db)@,
            j <= n,
            idx < n,
            spec_find_user(pre.users, user_id) == Some(idx as int),
            forall|k: int|
                0 <= k < j && k != idx ==> pre.users[k].username != user.username@,
        decreases n - j,
    {
        if j != idx && str_eq(db.users[j].username.as_str(), user.username.as_str()) {
            assert((j as int) < old(db)@.users.len() && (j as int) != (idx as int)
                && old(db)@.users[j as int].username == user.username@);
            return Err(StoreError);
        }
        j += 1;
    }

    let replacement = User { id: user_id, username: user.username.clone(), password: user.password.clone() };
    db.users.set(idx, replacement);
    assert(db@.users =~= pre.users.update(
        idx as int,
        UserView { id: user_id, username: user.username@, password: user.password@ },
    ));
    assert(db@.tokens =~= pre.tokens);
    proof {
        if store_wf(pre) {
            lemma_wf_after_user_update(
                pre,
                idx as int,
                UserView { id: user_id, username: user.username@, password: user.password@ },
            );
        }
    }
    Ok(())
}

/// Overwriting one record with the same id and a username no other record
/// carries preserves the store invariants.
proof fn lemma_wf_after_user_update(s: StoreView, i: int, u: UserView)
    requires
        store_wf(s),
        0 <= i < s.users.len(),
        u.id == s.users[i].id,
        forall|j: int| 0 <= j < s.users.len() && j != i ==> s.users[j].username != u.username,
    ensures
        store_wf(StoreView { users: s.users.update(i, u), tokens: s.tokens, next_id: s.next_id }),
{
    let users = s.users.update(i, u);
    assert(users[i] == u);
    assert forall|a: int, b: int| 0 <= a < b < users.len() implies users[a].id != users[b].id
        && users[a].username != users[b].username by {
        if a != i {
            assert(users[a] == s.users[a]);
        }
        if b != i {
            assert(users[b] == s.users[b]);
        }
    }
}

/// Creates a user record under a store-assigned fresh id, taking the
/// username and secret from the given record. A username already present,
/// or an exhausted id space, is a storage fault and changes nothing.
pub fn add_user(db: &mut AuthDb, user: &User) -> (r: Result<(), StoreError>)
    ensures
        if spec_has_username(old(db)@.users, user.username@) || old(db)@.next_id == i32::MAX {
            r is Err && final(db)@ == old(db)@
        } else {
            r is Ok && final(db)@.users == old(db)@.users.push(
                UserView {
                    id: old(db)@.next_id,
                    username: user.username@,
                    password: user.password@,
                },
            ) && final(db)@.tokens == old(db)@.tokens
                && final(db)@.next_id == old(db)@.next_id + 1
        },
        old(db).wf() ==> final(db).wf(),
{
    let ghost pre = db@;
    let n = db.users.len();
    let mut j: usize = 0;
    while j < n
        invariant
            n == db.users@.len(),
            pre == db@,
            pre == old(db)@,
            j <= n,
            forall|k: int| 0 <= k < j ==> pre.users[k].username != user.username@,
        decreases n - j,
    {
        assert(pre.users[j as int] == db.users@[j as int]@);
        if str_eq(db.users[j].username.as_str(), user.username.as_str()) {
            assert(pre.users[j as int].username == user.username@);
            assert(spec_has_username(pre.users, user.username@));
            return Err(StoreError);
        }
        j += 1;
    }
    assert(!spec_has_username(pre.users, user.username@));
    if db.next_id == i32::MAX {
        return Err(StoreError);
    }
    let fresh = User { id: db.next_id, username: user.username.clone(), password: user.password.clone() };
    db.users.push(fresh);
    db.next_id = db.next_id + 1;
    assert(db@.users =~= pre.users.push(
        UserView { id: pre.next_id, username: user.username@, password: user.password@ },
    ));
    assert(db@.tokens =~= pre.tokens);
    proof {
        if store_wf(pre) {
            let u = UserView { id: pre.next_id, username: user.username@, password: user.password@ };
            let users = pre.users.push(u);
            assert forall|a: int, b: int| 0 <= a < b < users.len() implies users[a].id != users[b].id
                && users[a].username != users[b].username by {
                if b == users.len() - 1 {
                    assert(users[a] == pre.users[a]);
                    assert(users[b] == u);
                } else {
                    assert(users[a] == pre.users[a]);
                    assert(users[b] == pre.users[b]);
                }
            }
        }
    }
    Ok(())
}

/// A token value that resolves to nothing is the value of no entry.
proof fn lemma_resolve_none_not_contained(tokens: Seq<TokenView>, value: Seq<char>)
    requires
        spec_resolve(tokens, value) is None,
    ensures
        forall|i: int| 0 <= i < tokens.len() ==> tokens[i].value != value,
    decreases tokens.len(),
{
    if tokens.len() > 0 {
        lemma_resolve_none_not_contained(tokens.drop_first(), value);
        assert forall|i: int| 0 <= i < tokens.len() implies tokens[i].value != value by {
            if i > 0 {
                assert(tokens[i] == tokens.drop_first()[i - 1]);
            }
        }
    }
}

/// Pushing a token whose value is not yet present keeps values unique.
proof fn lemma_unique_after_fresh_push(tokens: Seq<TokenView>, t: TokenView)
    requires
        unique_token_values(tokens),
        forall|i: int| 0 <= i < tokens.len() ==> tokens[i].value != t.value,
    ensures
        unique_token_values(tokens.push(t)),
{
}

/// A freshly issued token immediately resolves to exactly the user it was
/// issued for.
pub proof fn lemma_issued_token_resolves(tokens: Seq<TokenView>, t: TokenView)
    requires
        spec_resolve(tokens, t.value) is None,
    ensures
        spec_resolve(tokens.push(t), t.value) == Some(t.user_id),
    decreases tokens.len(),
{
    if tokens.len() == 0 {
        assert(tokens.push(t)[0] == t);
    } else {
        assert(tokens.push(t)[0] == tokens[0]);
        assert(tokens.push(t).drop_first() =~= tokens.drop_first().push(t));
        lemma_issued_token_resolves(tokens.drop_first(), t);
    }
}

/// Two successive token issues never produce the same value: the second
/// issue is fresh with respect to a table that already holds the first.
pub proof fn lemma_distinct_token_issues(tokens: Seq<TokenView>, t1: TokenView, t2: TokenView)
    requires
        spec_resolve(tokens, t1.value) is None,
        spec_resolve(tokens.push(t1), t2.value) is None,
    ensures
        t1.value != t2.value,
{
    lemma_issued_token_resolves(tokens, t1);
}

/// A (username, secret) pair that a record of the store carries logs in as
/// exactly that record's user, provided usernames are unique.
pub proof fn lemma_login_valid_pair(users: Seq<UserView>, i: int)
    requires
        unique_usernames(users),
        0 <= i < users.len(),
    ensures
        spec_login(users, users[i].username, users[i].password) == Some(users[i].id),
    decreases i,
{
    if i > 0 {
        assert(users[0].username != users[i].username);
        assert(forall|j: int| 0 <= j < users.len() - 1 ==> users.drop_first()[j] == users[j + 1]);
        assert(unique_usernames(users.drop_first()));
        lemma_login_valid_pair(users.drop_first(), i - 1);
    }
}

/// A pair that no record carries logs in as no one: the outcome is `None`,
/// never a fault.
pub proof fn lemma_login_no_match(users: Seq<UserView>, username: Seq<char>, password: Seq<char>)
    requires
        forall|i: int|
            0 <= i < users.len() ==> !(users[i].username == username && users[i].password
                == password),
    ensures
        spec_login(users, username, password) is None,
    decreases users.len(),
{
    if users.len() > 0 {
        assert(forall|j: int| 0 <= j < users.len() - 1 ==> users.drop_first()[j] == users[j + 1]);
        lemma_login_no_match(users.drop_first(), username, password);
    }
}

/// A successful login names a record of the store that carries exactly the
/// pair presented.
pub proof fn lemma_login_sound(users: Seq<UserView>, username: Seq<char>, password: Seq<char>)
    ensures
        match spec_login(users, username, password) {
            Some(id) => exists|i: int|
                #![trigger users[i]]
                0 <= i < users.len() && users[i].username == username && users[i].password
                    == password && users[i].id == id,
            None => true,
        },
    decreases users.len(),
{
    if users.len() > 0 {
        if users[0].username == username && users[0].password == password {
        } else {
            lemma_login_sound(users.drop_first(), username, password);
            assert(forall|j: int|
                0 <= j < users.len() - 1 ==> users.drop_first()[j] == users[j + 1]);
            if let Some(id) = spec_login(users, username, password) {
                let k = choose|k: int|
                    #![trigger users.drop_first()[k]]
                    0 <= k < users.drop_first().len() && users.drop_first()[k].username == username
                        && users.drop_first()[k].password == password && users.drop_first()[k].id
                        == id;
                assert(users[k + 1].username == username);
            }
        }
    }
}

} // verus!
