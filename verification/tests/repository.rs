use bookstore::authors::{
    create_author, delete_author, get_all_authors, get_all_authors_with_books, get_author_by_id,
    update_author, Author, NO_AUTHOR_ID_LEFT,
};
use bookstore::books::{
    create_book, delete_book, get_all_books, get_all_books_with_authors, get_book_by_id,
    update_book, Book, NO_BOOK_ID_LEFT,
};
use bookstore::error::StorageError;
use bookstore::seeds;
use bookstore::store::Store;

fn seeded_store() -> Store {
    let mut store = Store::new();
    seeds::run(&mut store).unwrap();
    store
}

#[test]
fn a_created_book_is_found_with_its_id_and_name() {
    let mut store = Store::new();
    for name in ["Walden", "a", "Les Mis\u{e9}rables", "  two  spaces  ", ""] {
        let book_id = create_book(&mut store, name).unwrap();
        let found = get_book_by_id(&store, book_id);
        assert_eq!(
            found,
            Some(Book {
                book_id,
                name: name.to_owned()
            })
        );
    }
}

#[test]
fn a_created_author_is_found_with_its_id_and_name() {
    let mut store = Store::new();
    for name in ["Henry David Thoreau", "b", "Victor Hugo"] {
        let author_id = create_author(&mut store, name).unwrap();
        let found = get_author_by_id(&store, author_id);
        assert_eq!(
            found,
            Some(Author {
                author_id,
                name: name.to_owned()
            })
        );
    }
}

#[test]
fn ids_are_generated_one_after_the_other_from_one() {
    let mut store = Store::new();
    assert_eq!(create_book(&mut store, "first"), Ok(1));
    assert_eq!(create_book(&mut store, "second"), Ok(2));
    assert_eq!(create_author(&mut store, "first"), Ok(1));
    assert_eq!(create_book(&mut store, "third"), Ok(3));
    assert_eq!(create_author(&mut store, "second"), Ok(2));
}

#[test]
fn an_id_that_was_never_generated_names_nothing() {
    let store = seeded_store();
    for id in [0, -1, 7, 100, i32::MAX, i32::MIN] {
        assert_eq!(get_book_by_id(&store, id), None);
        assert_eq!(get_author_by_id(&store, id), None);
    }
    let empty = Store::new();
    assert_eq!(get_book_by_id(&empty, 1), None);
    assert_eq!(get_author_by_id(&empty, 1), None);
}

#[test]
fn deleting_what_is_not_there_changes_nothing() {
    let mut store = seeded_store();
    let books = get_all_books(&store);
    let authors = get_all_authors(&store);
    let rows = store.joined();

    delete_book(&mut store, 7);
    delete_book(&mut store, 0);
    delete_author(&mut store, 42);
    delete_author(&mut store, -3);

    assert_eq!(get_all_books(&store), books);
    assert_eq!(get_all_authors(&store), authors);
    assert_eq!(store.joined(), rows);
    assert_eq!(get_all_books(&store).len(), 6);
    assert_eq!(get_all_authors(&store).len(), 6);
}

#[test]
fn deleting_twice_is_deleting_once() {
    let mut store = seeded_store();
    delete_book(&mut store, 2);
    let books = get_all_books(&store);
    let rows = store.joined();
    delete_book(&mut store, 2);
    assert_eq!(get_all_books(&store), books);
    assert_eq!(store.joined(), rows);
}

#[test]
fn renaming_what_is_not_there_changes_nothing() {
    let mut store = seeded_store();
    let books = get_all_books(&store);
    let authors = get_all_authors(&store);

    update_book(&mut store, "nobody's book", 7);
    update_author(&mut store, 7, "nobody");

    assert_eq!(get_all_books(&store), books);
    assert_eq!(get_all_authors(&store), authors);
}

#[test]
fn renaming_changes_the_name_of_that_row_only() {
    let mut store = seeded_store();

    update_book(&mut store, "Typee", 3);
    update_author(&mut store, 4, "E. A. Poe");

    let books = get_all_books(&store);
    let names: Vec<&str> = books.iter().map(|book| book.name.as_str()).collect();
    assert_eq!(
        names,
        vec![
            "Brave New World",
            "Moby Dick",
            "Typee",
            "Rip Van Winkle",
            "The Raven and Other Poems",
            "Mastering the Art of Programming: A Comprehensive Guide for Beginners",
        ]
    );
    let ids: Vec<i32> = books.iter().map(|book| book.book_id).collect();
    assert_eq!(ids, vec![1, 2, 3, 4, 5, 6]);
    assert_eq!(
        get_author_by_id(&store, 4),
        Some(Author {
            author_id: 4,
            name: "E. A. Poe".to_owned()
        })
    );
    assert_eq!(get_author_by_id(&store, 3).unwrap().name, "Washington Irving");
}

#[test]
fn a_renamed_book_shows_its_new_name_to_its_authors() {
    let mut store = seeded_store();
    update_book(&mut store, "Typee", 3);
    let authors = get_all_authors_with_books(&store);
    let melville = authors.get(&2).unwrap();
    let names: Vec<&str> = melville.books.iter().map(|book| book.name.as_str()).collect();
    assert_eq!(names, vec!["Moby Dick", "Typee"]);
}

#[test]
fn deleting_a_book_leaves_the_others_in_their_order() {
    let mut store = seeded_store();

    delete_book(&mut store, 1);

    let books = get_all_books(&store);
    assert_eq!(books.len(), 5);
    let ids: Vec<i32> = books.iter().map(|book| book.book_id).collect();
    assert_eq!(ids, vec![2, 3, 4, 5, 6]);
    assert!(books.iter().all(|book| book.book_id != 1));
    assert_eq!(get_book_by_id(&store, 2).unwrap().name, "Moby Dick");
}

#[test]
fn deleting_a_book_takes_its_links_along() {
    let mut store = seeded_store();

    delete_book(&mut store, 6);

    let rows = store.joined();
    assert_eq!(rows.len(), 5);
    assert!(rows.iter().all(|row| row.book_id != 6));
    let authors = get_all_authors_with_books(&store);
    assert_eq!(authors.len(), 4);
    assert!(authors.get(&5).is_none());
    assert!(authors.get(&6).is_none());
    assert_eq!(get_all_authors(&store).len(), 6);
}

#[test]
fn deleting_an_author_takes_its_links_along() {
    let mut store = seeded_store();

    delete_author(&mut store, 2);

    let rows = store.joined();
    assert_eq!(rows.len(), 5);
    let books = get_all_books_with_authors(&store);
    assert_eq!(books.len(), 4);
    assert!(books.get(&2).is_none());
    assert!(books.get(&3).is_none());
    assert_eq!(get_all_books(&store).len(), 6);
    assert_eq!(get_all_authors(&store).len(), 5);
}

#[test]
fn an_id_is_not_generated_again_after_a_deletion() {
    let mut store = seeded_store();
    delete_book(&mut store, 6);
    assert_eq!(create_book(&mut store, "Walden"), Ok(7));
    delete_author(&mut store, 1);
    assert_eq!(create_author(&mut store, "Thoreau"), Ok(7));
}

#[test]
fn all_rows_come_in_the_order_of_insertion() {
    let mut store = Store::new();
    create_book(&mut store, "c").unwrap();
    create_book(&mut store, "a").unwrap();
    create_book(&mut store, "b").unwrap();
    let books = get_all_books(&store);
    assert_eq!(
        books,
        vec![
            Book {
                book_id: 1,
                name: "c".to_owned()
            },
            Book {
                book_id: 2,
                name: "a".to_owned()
            },
            Book {
                book_id: 3,
                name: "b".to_owned()
            },
        ]
    );
    assert_eq!(get_all_authors(&store), Vec::<Author>::new());
}

#[test]
fn a_storage_resumes_after_given_ids() {
    let mut store = Store::resuming(41, 99).unwrap();
    assert_eq!(create_book(&mut store, "x"), Ok(42));
    assert_eq!(create_author(&mut store, "y"), Ok(100));
    assert!(Store::resuming(-1, 0).is_none());
    assert!(Store::resuming(0, -1).is_none());
    assert!(Store::resuming(0, 0).is_some());
}

#[test]
fn no_book_is_created_when_no_id_is_left() {
    let mut store = Store::resuming(i32::MAX - 1, 0).unwrap();
    assert_eq!(create_book(&mut store, "the last"), Ok(i32::MAX));
    let books = get_all_books(&store);

    let refused = create_book(&mut store, "one too many");

    assert_eq!(
        refused,
        Err(StorageError {
            message: NO_BOOK_ID_LEFT.to_owned()
        })
    );
    assert_eq!(get_all_books(&store), books);
    assert_eq!(create_author(&mut store, "still possible"), Ok(1));
}

#[test]
fn no_author_is_created_when_no_id_is_left() {
    let mut store = Store::resuming(0, i32::MAX).unwrap();

    let refused = create_author(&mut store, "one too many");

    assert_eq!(
        refused,
        Err(StorageError {
            message: NO_AUTHOR_ID_LEFT.to_owned()
        })
    );
    assert_eq!(get_all_authors(&store), Vec::<Author>::new());
}
