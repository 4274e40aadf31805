//! The bookstore service of the deployed host: its configuration, a store of
//! book records with verified CRUD operations, and the routing subtree it
//! mounts, with the mutating routes behind the authentication guard.

use vstd::prelude::*;

use crate::errors::StoreError;
use crate::routing::{Route, RouteView, Subtree, SubtreeView};

verus! {

/// The bookstore's configuration, loaded by the process entry point and
/// passed down explicitly.
#[derive(Debug)]
pub struct BookstoreConfiguration {
    pub db_filename: String,
}

/// A book record: a store-assigned unique id, the title, and the author.
#[derive(Debug)]
pub struct Book {
    pub id: i32,
    pub title: String,
    pub author: String,
}

/// The mathematical value of a `Book`.
pub ghost struct BookView {
    pub id: i32,
    pub title: Seq<char>,
    pub author: Seq<char>,
}

impl View for Book {
    type V = BookView;

    open spec fn view(&self) -> BookView {
        BookView { id: self.id, title: self.title@, author: self.author@ }
    }
}

impl Clone for Book {
    fn clone(&self) -> (r: Self)
        ensures
            r@ == self@,
    {
        Book { id: self.id, title: self.title.clone(), author: self.author.clone() }
    }
}

/// The mathematical value of the bookstore's store.
pub ghost struct BookstoreView {
    pub books: Seq<BookView>,
    pub next_id: i32,
}

/// No two book records share an id.
pub open spec fn unique_book_ids(books: Seq<BookView>) -> bool {
    forall|i: int, j: int| 0 <= i < j < books.len() ==> books[i].id != books[j].id
}

/// Every book id lies below the id the store would assign next.
pub open spec fn book_ids_below(books: Seq<BookView>, bound: i32) -> bool {
    forall|i: int| 0 <= i < books.len() ==> books[i].id < bound
}

/// Well-formedness of the bookstore's store.
pub open spec fn bookstore_wf(s: BookstoreView) -> bool {
    unique_book_ids(s.books) && book_ids_below(s.books, s.next_id)
}

/// The position of the first book record with the given id, if any.
pub open spec fn spec_find_book(books: Seq<BookView>, id: i32) -> Option<int>
    decreases books.len(),
{
    if books.len() == 0 {
        None
    } else if books[0].id == id {
        Some(0int)
    } else {
        match spec_find_book(books.drop_first(), id) {
            Some(i) => Some(i + 1),
            None => None,
        }
    }
}

/// The views of a sequence of book records.
pub open spec fn book_views(books: Seq<Book>) -> Seq<BookView> {
    books.map_values(|b: Book| b@)
}

/// The bookstore's store of book records. It exclusively owns them; callers
/// reach them only through the operations below.
pub struct StoreDb {
    books: Vec<Book>,
    next_id: i32,
}

impl View for StoreDb {
    type V = BookstoreView;

    closed spec fn view(&self) -> BookstoreView {
        BookstoreView { books: book_views(self.books@), next_id: self.next_id }
    }
}

impl StoreDb {
    /// Whether the store's invariants hold.
    pub open spec fn wf(&self) -> bool {
        bookstore_wf(self@)
    }
}

/// Opens a fresh, empty book store; its persistent schema and contents are
/// the storage collaborator's concern.
pub fn connect(_config: &BookstoreConfiguration) -> (db: StoreDb)
    ensures
        db@.books =~= Seq::<BookView>::empty(),
        db@.next_id == 1,
        db.wf(),
{
    let db = StoreDb { books: Vec::new(), next_id: 1 };
    assert(db@.books =~= Seq::<BookView>::empty());
    db
}

/// Returns a copy of every book record, in insertion order.
pub fn list_books(db_pool: &StoreDb) -> (r: Vec<Book>)
    ensures
        book_views(r@) == db_pool@.books,
{
    let n = db_pool.books.len();
    let mut out: Vec<Book> = Vec::new();
    let mut i: usize = 0;
    while i < n
        invariant
            n == db_pool.books@.len(),
            i <= n,
            book_views(out@) =~= db_pool@.books.take(i as int),
        decreases n - i,
    {
        let b = db_pool.books[i].clone();
        out.push(b);
        assert(book_views(out@) =~= db_pool@.books.take(i as int).push(db_pool@.books[i as int]));
        assert(db_pool@.books.take(i as int).push(db_pool@.books[i as int]) =~= db_pool@.books.take(
            i as int + 1,
        ));
        i += 1;
    }
    assert(db_pool@.books.take(n as int) =~= db_pool@.books);
    out
}

/// The position of the first record with the given id, found by a scan.
fn find_book_index(db_pool: &StoreDb, id: i32) -> (r: Option<usize>)
    ensures
        match r {
            Some(i) => spec_find_book(db_pool@.books, id) == Some(i as int) && i
                < db_pool@.books.len() && db_pool@.books[i as int].id == id,
            None => spec_find_book(db_pool@.books, id) is None,
        },
{
    let ghost all = db_pool@.books;
    let n = db_pool.books.len();
    let mut i: usize = 0;
    while i < n
        invariant
            n == db_pool.books@.len(),
            all == db_pool@.books,
            i <= n,
            forall|j: int| 0 <= j < i ==> all[j].id != id,
        decreases n - i,
    {
        assert(all[i as int] == db_pool.books@[i as int]@);
        if db_pool.books[i].id == id {
            proof {
                lemma_find_book_prefix(all, id, i as int);
            }
            return Some(i);
        }
        i += 1;
    }
    proof {
        lemma_find_book_prefix(all, id, n as int);
    }
    None
}

/// Relates the first id match in a suffix to the first match overall.
proof fn lemma_find_book_prefix(books: Seq<BookView>, id: i32, i: int)
    requires
        0 <= i <= books.len(),
        forall|j: int| 0 <= j < i ==> books[j].id != id,
    ensures
        i < books.len() && books[i].id == id ==> spec_find_book(books, id) == Some(i),
        i == books.len() ==> spec_find_book(books, id) is None,
    decreases i,
{
    if i > 0 {
        lemma_find_book_prefix(books.drop_first(), id, i - 1);
        assert(forall|j: int| 0 <= j < books.len() - 1 ==> books.drop_first()[j] == books[j + 1]);
    }
}

/// Returns a copy of the book with the given id; an unknown id is a fault,
/// as it is for the storage layer asked to fetch exactly one row.
pub fn get_book(db_pool: &StoreDb, id: i32) -> (r: Result<Book, StoreError>)
    ensures
        match r {
            Ok(b) => spec_find_book(db_pool@.books, id) matches Some(i) && db_pool@.books[i]
                == b@,
            Err(_) => spec_find_book(db_pool@.books, id) is None,
        },
{
    match find_book_index(db_pool, id) {
        Some(i) => Ok(db_pool.books[i].clone()),
        None => Err(StoreError),
    }
}

/// Deletes the book record with the given id, if present; the other records
/// keep their order.
pub fn delete_book(db_pool: &mut StoreDb, id: i32) -> (r: Result<(), StoreError>)
    ensures
        r is Ok,
        match spec_find_book(old(db_pool)@.books, id) {
            Some(i) => final(db_pool)@.books == old(db_pool)@.books.remove(i)
                && final(db_pool)@.next_id == old(db_pool)@.next_id,
            None => final(db_pool)@ == old(db_pool)@,
        },
        old(db_pool).wf() ==> final(db_pool).wf(),
{
    let ghost pre = db_pool@;
    match find_book_index(db_pool, id) {
        None => Ok(()),
        Some(i) => {
            db_pool.books.remove(i);
            assert(db_pool@.books =~= pre.books.remove(i as int));
            proof {
                if bookstore_wf(pre) {
                    let books = pre.books.remove(i as int);
                    assert forall|a: int, b: int|
                        0 <= a < b < books.len() implies books[a].id != books[b].id by {
                        let a0 = if a < i as int { a } else { a + 1 };
                        let b0 = if b < i as int { b } else { b + 1 };
                        assert(books[a] == pre.books[a0]);
                        assert(books[b] == pre.books[b0]);
                    }
                    assert forall|a: int| 0 <= a < books.len() implies books[a].id
                        < pre.next_id by {
                        let a0 = if a < i as int { a } else { a + 1 };
                        assert(books[a] == pre.books[a0]);
                    }
                }
            }
            Ok(())
        },
    }
}

/// Creates a book record under a store-assigned fresh id with the given
/// title and author. An exhausted id space is a storage fault and changes
/// nothing.
pub fn add_book(db_pool: &mut StoreDb, title: String, author: String) -> (r: Result<
    (),
    StoreError,
>)
    ensures
        if old(db_pool)@.next_id == i32::MAX {
            r is Err && final(db_pool)@ == old(db_pool)@
        } else {
            r is Ok && final(db_pool)@.books == old(db_pool)@.books.push(
                BookView { id: old(db_pool)@.next_id, title: title@, author: author@ },
            ) && final(db_pool)@.next_id == old(db_pool)@.next_id + 1
        },
        old(db_pool).wf() ==> final(db_pool).wf(),
{
    let ghost pre = db_pool@;
    if db_pool.next_id == i32::MAX {
        return Err(StoreError);
    }
    let fresh = Book { id: db_pool.next_id, title, author };
    db_pool.books.push(fresh);
    db_pool.next_id = db_pool.next_id + 1;
    assert(db_pool@.books =~= pre.books.push(
        BookView { id: pre.next_id, title: title@, author: author@ },
    ));
    Ok(())
}

/// Rewrites the title and author of the record with the given id; an unknown
/// id changes nothing. Either way the operation succeeds, as the storage
/// layer's update of zero or one rows does.
pub fn update_book(db_pool: &mut StoreDb, id: i32, title: String, author: String) -> (r: Result<
    (),
    StoreError,
>)
    ensures
        r is Ok,
        match spec_find_book(old(db_pool)@.books, id) {
            Some(i) => final(db_pool)@.books == old(db_pool)@.books.update(
                i,
                BookView { id: id, title: title@, author: author@ },
            ) && final(db_pool)@.next_id == old(db_pool)@.next_id,
            None => final(db_pool)@ == old(db_pool)@,
        },
        old(db_pool).wf() ==> final(db_pool).wf(),
{
    let ghost pre = db_pool@;
    match find_book_index(db_pool, id) {
        None => Ok(()),
        Some(i) => {
            let replacement = Book { id, title, author };
            let ghost bv = BookView { id: id, title: title@, author: author@ };
            db_pool.books.set(i, replacement);
            assert(db_pool@.books =~= pre.books.update(i as int, bv));
            proof {
                if bookstore_wf(pre) {
                    let books = pre.books.update(i as int, bv);
                    assert(books[i as int] == bv);
                    assert forall|a: int, b: int|
                        0 <= a < b < books.len() implies books[a].id != books[b].id by {
                        if a != i {
                            assert(books[a] == pre.books[a]);
                        }
                        if b != i {
                            assert(books[b] == pre.books[b]);
                        }
                    }
                    assert forall|a: int| 0 <= a < books.len() implies books[a].id
                        < pre.next_id by {
                        if a != i {
                            assert(books[a] == pre.books[a]);
                        }
                    }
                }
            }
            Ok(())
        },
    }
}

/// The routes of the bookstore's subtree, in declaration order: the mutating
/// routes run behind the authentication guard, the reading routes are open.
pub open spec fn bookstore_routes() -> Seq<RouteView> {
    seq![
        RouteView { path: "/add"@, protected: true },
        RouteView { path: "/delete/:id"@, protected: true },
        RouteView { path: "/update/:id"@, protected: true },
        RouteView { path: "/"@, protected: false },
        RouteView { path: "/:id"@, protected: false },
    ]
}

/// Assembles the bookstore's routing subtree. Loading the configuration,
/// opening the storage and migrating its schema are the entry point's work;
/// this fixes which routes exist and which of them the guard protects.
pub fn setup_service() -> (t: Subtree)
    ensures
        t@ == (SubtreeView { routes: bookstore_routes() }),
{
    let mut routes: Vec<Route> = Vec::new();
    routes.push(Route { path: "/add".to_owned(), protected: true });
    routes.push(Route { path: "/delete/:id".to_owned(), protected: true });
    routes.push(Route { path: "/update/:id".to_owned(), protected: true });
    routes.push(Route { path: "/".to_owned(), protected: false });
    routes.push(Route { path: "/:id".to_owned(), protected: false });
    let subtree = Subtree { routes };
    assert(subtree@.routes =~= bookstore_routes());
    subtree
}

} // verus!
