use service_framework::bookstore;
use service_framework::librarian::{
    add_book, all_books, book_by_id, delete_book, setup_database, update_book, Book,
    LibrarianConfig,
};

fn fresh_library() -> service_framework::librarian::LibrarianDb {
    setup_database(&LibrarianConfig { database_url: "sqlite::memory:".to_string() })
}

fn book(title: &str, author: &str) -> Book {
    Book { id: -1, title: title.to_string(), author: author.to_string() }
}

#[test]
fn added_book_is_fetched_by_its_new_id() {
    let mut db = fresh_library();
    let id = add_book(&mut db, book("Hands-on Rust", "Wolverson, Herbert")).unwrap();
    assert_eq!(id, 1);
    let fetched = book_by_id(&db, id).unwrap();
    assert_eq!(fetched.id, 1);
    assert_eq!(fetched.title, "Hands-on Rust");
    assert_eq!(fetched.author, "Wolverson, Herbert");
    assert!(book_by_id(&db, 2).is_err());
}

#[test]
fn updated_book_carries_the_new_title() {
    let mut db = fresh_library();
    let id = add_book(&mut db, book("Test Book", "Test Author")).unwrap();
    let mut fetched = book_by_id(&db, id).unwrap();
    fetched.title = "Updated Book".to_string();
    update_book(&mut db, &fetched).unwrap();
    assert_eq!(book_by_id(&db, id).unwrap().title, "Updated Book");
}

#[test]
fn deleted_book_is_gone_from_the_listing() {
    let mut db = fresh_library();
    let keep = add_book(&mut db, book("Keeper", "Test Author")).unwrap();
    let doomed = add_book(&mut db, book("DeleteMe", "Test Author")).unwrap();
    let last = add_book(&mut db, book("Last", "Test Author")).unwrap();
    delete_book(&mut db, doomed).unwrap();
    let rows = all_books(&db);
    assert_eq!(rows.len(), 2);
    assert_eq!(rows[0].id, keep);
    assert_eq!(rows[1].id, last);
    assert!(!rows.iter().any(|b| b.title == "DeleteMe"));
}

#[test]
fn listing_is_sorted_by_author_then_title() {
    let mut db = fresh_library();
    let zed = add_book(&mut db, book("Zed's Book", "Zed")).unwrap();
    let beta = add_book(&mut db, book("Beta", "Abe")).unwrap();
    let alpha = add_book(&mut db, book("Alpha", "Abe")).unwrap();
    let rows = all_books(&db);
    assert_eq!(rows.len(), 3);
    assert_eq!(rows[0].id, alpha);
    assert_eq!(rows[0].author, "Abe");
    assert_eq!(rows[0].title, "Alpha");
    assert_eq!(rows[1].id, beta);
    assert_eq!(rows[1].title, "Beta");
    assert_eq!(rows[2].id, zed);
    assert_eq!(rows[2].author, "Zed");
}

#[test]
fn bookstore_store_supports_the_same_lifecycle() {
    let mut db = bookstore::connect(&bookstore::BookstoreConfiguration {
        db_filename: "bookstore.db".to_string(),
    });
    bookstore::add_book(&mut db, "Title One".to_string(), "Author One".to_string()).unwrap();
    bookstore::add_book(&mut db, "Title Two".to_string(), "Author Two".to_string()).unwrap();
    assert_eq!(bookstore::list_books(&db).len(), 2);

    let first = bookstore::get_book(&db, 1).unwrap();
    assert_eq!(first.title, "Title One");

    bookstore::update_book(&mut db, 1, "Renamed".to_string(), "Author One".to_string()).unwrap();
    assert_eq!(bookstore::get_book(&db, 1).unwrap().title, "Renamed");

    // Updating a missing id succeeds and changes nothing.
    bookstore::update_book(&mut db, 99, "X".to_string(), "Y".to_string()).unwrap();
    assert_eq!(bookstore::list_books(&db).len(), 2);

    bookstore::delete_book(&mut db, 1).unwrap();
    assert!(bookstore::get_book(&db, 1).is_err());
    assert_eq!(bookstore::list_books(&db).len(), 1);
}

#[test]
fn bookstore_subtree_protects_exactly_the_mutating_routes() {
    let subtree = service_framework::bookstore::setup_service();
    let flags: Vec<(String, bool)> = subtree
        .routes
        .iter()
        .map(|r| (r.path.clone(), r.protected))
        .collect();
    assert_eq!(
        flags,
        vec![
            ("/add".to_string(), true),
            ("/delete/:id".to_string(), true),
            ("/update/:id".to_string(), true),
            ("/".to_string(), false),
            ("/:id".to_string(), false),
        ]
    );
}

#[test]
fn auth_subtree_keeps_login_open_and_users_protected() {
    let subtree = service_framework::web_service::setup_service();
    assert_eq!(subtree.routes.len(), 6);
    assert_eq!(subtree.routes[0].path, "/login");
    assert!(!subtree.routes[0].protected);
    let mut i: usize = 1;
    while i < 6 {
        assert!(subtree.routes[i].protected);
        i += 1;
    }
}
