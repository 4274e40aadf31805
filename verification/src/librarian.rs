//! The librarian service: a store of book records with verified CRUD
//! operations, and the pluggable service that mounts its routes under
//! `/library/v1/`.

use vstd::prelude::*;

use vstd::multiset::Multiset;

use crate::errors::{BuildError, StoreError};
use crate::registry::Service;
use crate::routing::{Route, RouteView, Subtree, SubtreeView};
use crate::text::{lemma_seq_char_le_refl, lemma_seq_char_le_total, lemma_seq_char_le_trans, seq_char_le, str_eq, str_le};

verus! {

/// A book record: a store-assigned unique id, the author, and the title.
#[derive(Debug)]
pub struct Book {
    pub id: i32,
    pub author: String,
    pub title: String,
}

/// The mathematical value of a `Book`.
pub ghost struct BookView {
    pub id: i32,
    pub author: Seq<char>,
    pub title: Seq<char>,
}

impl View for Book {
    type V = BookView;

    open spec fn view(&self) -> BookView {
        BookView { id: self.id, author: self.author@, title: self.title@ }
    }
}

impl Clone for Book {
    fn clone(&self) -> (r: Self)
        ensures
            r@ == self@,
    {
        Book { id: self.id, author: self.author.clone(), title: self.title.clone() }
    }
}

/// The mathematical value of the librarian's store.
pub ghost struct LibraryView {
    pub books: Seq<BookView>,
    pub next_id: i32,
}

/// No two book records share an id.
pub open spec fn unique_book_ids(books: Seq<BookView>) -> bool {
    forall|i: int, j: int| 0 <= i < j < books.len() ==> books[i].id != books[j].id
}

/// Every book id lies below the id the store would assign next.
pub open spec fn book_ids_below(books: Seq<BookView>, bound: i32) -> bool {
    forall|i: int| 0 <= i < books.len() ==> books[i].id < bound
}

/// Well-formedness of the librarian's store.
pub open spec fn library_wf(s: LibraryView) -> bool {
    unique_book_ids(s.books) && book_ids_below(s.books, s.next_id)
}

/// The position of the first book record with the given id, if any.
pub open spec fn spec_find_book(books: Seq<BookView>, id: i32) -> Option<int>
    decreases books.len(),
{
    if books.len() == 0 {
        None
    } else if books[0].id == id {
        Some(0int)
    } else {
        match spec_find_book(books.drop_first(), id) {
            Some(i) => Some(i + 1),
            None => None,
        }
    }
}

/// The views of a sequence of book records.
pub open spec fn book_views(books: Seq<Book>) -> Seq<BookView> {
    books.map_values(|b: Book| b@)
}

/// The librarian's store of book records. It exclusively owns them; callers
/// reach them only through the operations below.
pub struct LibrarianDb {
    books: Vec<Book>,
    next_id: i32,
}

impl View for LibrarianDb {
    type V = LibraryView;

    closed spec fn view(&self) -> LibraryView {
        LibraryView { books: book_views(self.books@), next_id: self.next_id }
    }
}

impl LibrarianDb {
    /// Whether the store's invariants hold.
    pub open spec fn wf(&self) -> bool {
        library_wf(self@)
    }
}

/// Opens a fresh, empty book store for this service; its persistent schema
/// and contents are the storage collaborator's concern.
pub fn setup_database(_settings: &LibrarianConfig) -> (db: LibrarianDb)
    ensures
        db@.books =~= Seq::<BookView>::empty(),
        db@.next_id == 1,
        db.wf(),
{
    let db = LibrarianDb { books: Vec::new(), next_id: 1 };
    assert(db@.books =~= Seq::<BookView>::empty());
    db
}

/// Ascending order on book records: by author, and by title between records
/// of one author. Ids break no ties; equal (author, title) pairs stand in
/// either order.
pub open spec fn book_le(a: BookView, b: BookView) -> bool {
    if a.author == b.author {
        seq_char_le(a.title, b.title)
    } else {
        seq_char_le(a.author, b.author)
    }
}

/// Of any two book records, one is at most the other.
pub proof fn lemma_book_le_total(a: BookView, b: BookView)
    ensures
        book_le(a, b) || book_le(b, a),
{
    if a.author == b.author {
        lemma_seq_char_le_total(a.title, b.title);
    } else {
        lemma_seq_char_le_total(a.author, b.author);
    }
}

/// The book ordering is transitive.
pub proof fn lemma_book_le_trans(a: BookView, b: BookView, c: BookView)
    requires
        book_le(a, b),
        book_le(b, c),
    ensures
        book_le(a, c),
{
    if a.author == b.author && b.author == c.author {
        lemma_seq_char_le_trans(a.title, b.title, c.title);
    } else if a.author != b.author && b.author != c.author {
        lemma_seq_char_le_trans(a.author, b.author, c.author);
        if a.author == c.author {
            crate::text::lemma_seq_char_le_antisymmetric(a.author, b.author);
        }
    }
}

/// Whether the records stand in ascending (author, then title) order.
pub open spec fn books_sorted(books: Seq<BookView>) -> bool {
    forall|i: int, j: int| 0 <= i < j < books.len() ==> book_le(books[i], books[j])
}

/// Ascending comparison of two book records: by author, then by title.
fn book_le_exec(a: &Book, b: &Book) -> (r: bool)
    ensures
        r == book_le(a@, b@),
{
    if str_eq(a.author.as_str(), b.author.as_str()) {
        str_le(a.title.as_str(), b.title.as_str())
    } else {
        str_le(a.author.as_str(), b.author.as_str())
    }
}

/// The book ordering is reflexive.
pub proof fn lemma_book_le_refl(a: BookView)
    ensures
        book_le(a, a),
{
    lemma_seq_char_le_refl(a.title);
}

/// The position of a record of the rest that no other record of the rest
/// comes before.
fn minimum_index(rest: &Vec<Book>) -> (p: usize)
    requires
        rest@.len() > 0,
    ensures
        p < rest@.len(),
        forall|y: int| 0 <= y < rest@.len() ==> book_le(book_views(rest@)[p as int], book_views(rest@)[y]),
{
    let ghost views = book_views(rest@);
    let m = rest.len();
    let mut min_idx: usize = 0;
    let mut q: usize = 1;
    proof {
        assert(views[0] == rest@[0]@);
        lemma_book_le_refl(views[0]);
    }
    while q < m
        invariant
            m == rest@.len(),
            views == book_views(rest@),
            min_idx < q,
            q <= m,
            forall|y: int| 0 <= y < q ==> book_le(views[min_idx as int], views[y]),
        decreases m - q,
    {
        assert(views[q as int] == rest@[q as int]@);
        assert(views[min_idx as int] == rest@[min_idx as int]@);
        if book_le_exec(&rest[q], &rest[min_idx]) {
            proof {
                assert forall|y: int| 0 <= y < q + 1 implies book_le(
                    views[q as int],
                    views[y],
                ) by {
                    if y < q {
                        lemma_book_le_trans(views[q as int], views[min_idx as int], views[y]);
                    } else {
                        lemma_book_le_refl(views[q as int]);
                    }
                }
            }
            min_idx = q;
        } else {
            proof {
                lemma_book_le_total(views[q as int], views[min_idx as int]);
            }
        }
        q += 1;
    }
    min_idx
}

/// Returns a copy of every book record, sorted ascending by author and then
/// by title, as the storage layer lists them: the result holds exactly the
/// stored records, none dropped or invented.
pub fn all_books(connection: &LibrarianDb) -> (r: Vec<Book>)
    ensures
        book_views(r@).to_multiset() == connection@.books.to_multiset(),
        books_sorted(book_views(r@)),
{
    broadcast use vstd::seq_lib::group_to_multiset_ensures;
    broadcast use vstd::multiset::group_multiset_axioms;

    let ghost all = connection@.books;

    // Copy the stored records, in their stored order.
    let n = connection.books.len();
    let mut rest: Vec<Book> = Vec::new();
    let mut i: usize = 0;
    while i < n
        invariant
            n == connection.books@.len(),
            all == connection@.books,
            i <= n,
            book_views(rest@) =~= all.take(i as int),
        decreases n - i,
    {
        let b = connection.books[i].clone();
        rest.push(b);
        assert(book_views(rest@) =~= all.take(i as int).push(all[i as int]));
        assert(all.take(i as int).push(all[i as int]) =~= all.take(i as int + 1));
        i += 1;
    }
    assert(all.take(n as int) =~= all);
    assert(book_views(rest@) == all);

    // Move the records over, smallest remaining record first.
    let mut out: Vec<Book> = Vec::new();
    assert(book_views(out@).to_multiset().add(book_views(rest@).to_multiset()) =~= all.to_multiset());
    while rest.len() > 0
        invariant
            book_views(out@).to_multiset().add(book_views(rest@).to_multiset()) == all.to_multiset(),
            books_sorted(book_views(out@)),
            forall|x: int, y: int|
                0 <= x < book_views(out@).len() && 0 <= y < book_views(rest@).len()
                    ==> book_le(book_views(out@)[x], book_views(rest@)[y]),
        decreases rest@.len(),
    {
        broadcast use vstd::seq_lib::group_to_multiset_ensures;
        broadcast use vstd::multiset::group_multiset_axioms;

        let min_idx = minimum_index(&rest);
        let ghost out_before = book_views(out@);
        let ghost rest_before = book_views(rest@);
        let ghost rest_seq = rest@;
        let b = rest.remove(min_idx);
        let ghost bv = b@;
        out.push(b);
        proof {
            assert(bv == rest_before[min_idx as int]);
            assert(book_views(out@) =~= out_before.push(bv));

            // The remaining records, element by element.
            assert(rest@ == rest_seq.remove(min_idx as int));
            assert forall|k: int| 0 <= k < rest@.len() implies book_views(rest@)[k] == (
                if k < min_idx as int {
                    rest_before[k]
                } else {
                    rest_before[k + 1]
                }
            ) by {
                assert(book_views(rest@)[k] == rest@[k]@);
                if k < min_idx as int {
                    assert(rest@[k] == rest_seq[k]);
                } else {
                    assert(rest@[k] == rest_seq[k + 1]);
                }
            }
            assert(book_views(rest@) =~= rest_before.remove(min_idx as int));

            // The moved record leaves one multiset and joins the other.
            assert(book_views(out@).to_multiset() =~= out_before.to_multiset().insert(bv));
            assert(book_views(rest@).to_multiset() =~= rest_before.to_multiset().remove(bv)) by {
                assert(rest_before.remove(min_idx as int).to_multiset() =~= rest_before.to_multiset()
                    .remove(rest_before[min_idx as int]));
            }
            assert(rest_before.contains(bv)) by {
                assert(rest_before[min_idx as int] == bv);
            }
            assert(rest_before.to_multiset().count(bv) > 0);
            assert(out_before.to_multiset().insert(bv).add(rest_before.to_multiset().remove(bv))
                =~= out_before.to_multiset().add(rest_before.to_multiset()));

            // The listing stays sorted: everything already listed is at most
            // the record just moved.
            assert forall|x: int, y: int|
                0 <= x < y < book_views(out@).len() implies book_le(
                book_views(out@)[x],
                book_views(out@)[y],
            ) by {
                if y == book_views(out@).len() - 1 {
                    assert(book_views(out@)[y] == bv);
                    assert(book_views(out@)[x] == out_before[x]);
                } else {
                    assert(book_views(out@)[x] == out_before[x]);
                    assert(book_views(out@)[y] == out_before[y]);
                }
            }

            // Everything listed stays at most everything remaining: the
            // moved record was a minimum of the rest.
            assert forall|x: int, y: int|
                0 <= x < book_views(out@).len() && 0 <= y < book_views(rest@).len() implies book_le(
                book_views(out@)[x],
                book_views(rest@)[y],
            ) by {
                let y0 = if y < min_idx as int {
                    y
                } else {
                    y + 1
                };
                assert(book_views(rest@)[y] == rest_before[y0]);
                if x < out_before.len() {
                    assert(book_views(out@)[x] == out_before[x]);
                } else {
                    assert(book_views(out@)[x] == bv);
                }
            }
        }
    }
    assert(book_views(rest@).to_multiset() =~= Multiset::<BookView>::empty()) by {
        assert(book_views(rest@) =~= Seq::<BookView>::empty());
    }
    assert(book_views(out@).to_multiset() =~= all.to_multiset());
    out
}

/// The position of the first record with the given id, found by a scan.
fn find_book_index(connection: &LibrarianDb, id: i32) -> (r: Option<usize>)
    ensures
        match r {
            Some(i) => spec_find_book(connection@.books, id) == Some(i as int) && i
                < connection@.books.len() && connection@.books[i as int].id == id,
            None => spec_find_book(connection@.books, id) is None,
        },
{
    let ghost all = connection@.books;
    let n = connection.books.len();
    let mut i: usize = 0;
    while i < n
        invariant
            n == connection.books@.len(),
            all == connection@.books,
            i <= n,
            forall|j: int| 0 <= j < i ==> all[j].id != id,
        decreases n - i,
    {
        assert(all[i as int] == connection.books@[i as int]@);
        if connection.books[i].id == id {
            proof {
                lemma_find_book_prefix(all, id, i as int);
            }
            return Some(i);
        }
        i += 1;
    }
    proof {
        lemma_find_book_prefix(all, id, n as int);
    }
    None
}

/// Relates the first id match in a suffix to the first match overall.
proof fn lemma_find_book_prefix(books: Seq<BookView>, id: i32, i: int)
    requires
        0 <= i <= books.len(),
        forall|j: int| 0 <= j < i ==> books[j].id != id,
    ensures
        i < books.len() && books[i].id == id ==> spec_find_book(books, id) == Some(i),
        i == books.len() ==> spec_find_book(books, id) is None,
    decreases i,
{
    if i > 0 {
        lemma_find_book_prefix(books.drop_first(), id, i - 1);
        assert(forall|j: int| 0 <= j < books.len() - 1 ==> books.drop_first()[j] == books[j + 1]);
    }
}

/// Returns a copy of the book with the given id; an unknown id is a fault,
/// as it is for the storage layer asked to fetch exactly one row.
pub fn book_by_id(connection: &LibrarianDb, id: i32) -> (r: Result<Book, StoreError>)
    ensures
        match r {
            Ok(b) => spec_find_book(connection@.books, id) matches Some(i)
                && connection@.books[i] == b@,
            Err(_) => spec_find_book(connection@.books, id) is None,
        },
{
    match find_book_index(connection, id) {
        Some(i) => Ok(connection.books[i].clone()),
        None => Err(StoreError),
    }
}

/// Creates a book record under a store-assigned fresh id, taking author and
/// title from the given record, and returns the new id. An exhausted id
/// space is a storage fault and changes nothing.
pub fn add_book(connection: &mut LibrarianDb, book: Book) -> (r: Result<i32, StoreError>)
    ensures
        if old(connection)@.next_id == i32::MAX {
            r is Err && final(connection)@ == old(connection)@
        } else {
            r == Result::<i32, StoreError>::Ok(old(connection)@.next_id)
                && final(connection)@.books == old(connection)@.books.push(
                BookView { id: old(connection)@.next_id, author: book.author@, title: book.title@ },
            ) && final(connection)@.next_id == old(connection)@.next_id + 1
        },
        old(connection).wf() ==> final(connection).wf(),
{
    let ghost pre = connection@;
    if connection.next_id == i32::MAX {
        return Err(StoreError);
    }
    let id = connection.next_id;
    let fresh = Book { id, author: book.author, title: book.title };
    connection.books.push(fresh);
    connection.next_id = connection.next_id + 1;
    assert(connection@.books =~= pre.books.push(
        BookView { id: pre.next_id, author: book.author@, title: book.title@ },
    ));
    Ok(id)
}

/// Rewrites the author and title of the record whose id the given book
/// carries; an unknown id changes nothing. Either way the operation
/// succeeds, as the storage layer's update of zero or one rows does.
pub fn update_book(connection: &mut LibrarianDb, book: &Book) -> (r: Result<(), StoreError>)
    ensures
        r is Ok,
        match spec_find_book(old(connection)@.books, book.id) {
            Some(i) => final(connection)@.books == old(connection)@.books.update(i, book@)
                && final(connection)@.next_id == old(connection)@.next_id,
            None => final(connection)@ == old(connection)@,
        },
        old(connection).wf() ==> final(connection).wf(),
{
    let ghost pre = connection@;
    match find_book_index(connection, book.id) {
        None => Ok(()),
        Some(i) => {
            let replacement = book.clone();
            connection.books.set(i, replacement);
            assert(connection@.books =~= pre.books.update(i as int, book@));
            proof {
                if library_wf(pre) {
                    let books = pre.books.update(i as int, book@);
                    assert(books[i as int] == book@);
                    assert forall|a: int, b: int|
                        0 <= a < b < books.len() implies books[a].id != books[b].id by {
                        if a != i {
                            assert(books[a] == pre.books[a]);
                        }
                        if b != i {
                            assert(books[b] == pre.books[b]);
                        }
                    }
                    assert forall|a: int| 0 <= a < books.len() implies books[a].id
                        < pre.next_id by {
                        if a != i {
                            assert(books[a] == pre.books[a]);
                        }
                    }
                }
            }
            Ok(())
        },
    }
}

/// Deletes the book record with the given id, if present; the other records
/// keep their order.
pub fn delete_book(connection: &mut LibrarianDb, id: i32) -> (r: Result<(), StoreError>)
    ensures
        r is Ok,
        match spec_find_book(old(connection)@.books, id) {
            Some(i) => final(connection)@.books == old(connection)@.books.remove(i)
                && final(connection)@.next_id == old(connection)@.next_id,
            None => final(connection)@ == old(connection)@,
        },
        old(connection).wf() ==> final(connection).wf(),
{
    let ghost pre = connection@;
    match find_book_index(connection, id) {
        None => Ok(()),
        Some(i) => {
            connection.books.remove(i);
            assert(connection@.books =~= pre.books.remove(i as int));
            proof {
                if library_wf(pre) {
                    let books = pre.books.remove(i as int);
                    assert forall|a: int, b: int|
                        0 <= a < b < books.len() implies books[a].id != books[b].id by {
                        let a0 = if a < i as int { a } else { a + 1 };
                        let b0 = if b < i as int { b } else { b + 1 };
                        assert(books[a] == pre.books[a0]);
                        assert(books[b] == pre.books[b0]);
                    }
                    assert forall|a: int| 0 <= a < books.len() implies books[a].id
                        < pre.next_id by {
                        let a0 = if a < i as int { a } else { a + 1 };
                        assert(books[a] == pre.books[a0]);
                    }
                }
            }
            Ok(())
        },
    }
}

/// The librarian service's configuration, loaded by the process entry point
/// and passed down explicitly.
#[derive(Debug, Default)]
pub struct LibrarianConfig {
    pub database_url: String,
}

/// The librarian as a pluggable service. It carries its configuration when
/// the load succeeded; without one, building its subtree fails.
#[derive(Default)]
pub struct LibrarianService {
    pub config: Option<LibrarianConfig>,
}

/// The routes of the librarian's subtree, in declaration order.
pub open spec fn librarian_routes() -> Seq<RouteView> {
    seq![
        RouteView { path: "/"@, protected: false },
        RouteView { path: "/:id"@, protected: false },
        RouteView { path: "/add"@, protected: false },
        RouteView { path: "/edit"@, protected: false },
        RouteView { path: "/delete/:id"@, protected: false },
    ]
}

impl Service for LibrarianService {
    open spec fn prefix_spec(&self) -> Seq<char> {
        "/library/v1/"@
    }

    open spec fn build_spec(&self) -> Result<SubtreeView, BuildError> {
        match self.config {
            Some(_) => Ok(SubtreeView { routes: librarian_routes() }),
            None => Err(BuildError::Configuration),
        }
    }

    fn prefix(&self) -> (r: String) {
        "/library/v1/".to_owned()
    }

    fn build_web_service(&self) -> (r: Result<Subtree, BuildError>) {
        match &self.config {
            None => Err(BuildError::Configuration),
            Some(_) => {
                let mut routes: Vec<Route> = Vec::new();
                routes.push(Route { path: "/".to_owned(), protected: false });
                routes.push(Route { path: "/:id".to_owned(), protected: false });
                routes.push(Route { path: "/add".to_owned(), protected: false });
                routes.push(Route { path: "/edit".to_owned(), protected: false });
                routes.push(Route { path: "/delete/:id".to_owned(), protected: false });
                let subtree = Subtree { routes };
                assert(subtree@.routes =~= librarian_routes());
                Ok(subtree)
            },
        }
    }
}

} // verus!
