use bookstore::authors::{get_all_authors_with_books, group_by_author, Author};
use bookstore::books::{create_book, get_all_books_with_authors, group_by_book, Book};
use bookstore::authors::create_author;
use bookstore::seeds;
use bookstore::store::{BookAuthorRow, Store};

fn row(book_id: i32, book_name: &str, author_id: i32, author_name: &str) -> BookAuthorRow {
    BookAuthorRow {
        book_id,
        book_name: book_name.to_owned(),
        author_id,
        author_name: author_name.to_owned(),
    }
}

fn fixture_rows() -> Vec<BookAuthorRow> {
    let programming = "Mastering the Art of Programming: A Comprehensive Guide for Beginners";
    vec![
        row(1, "Brave New World", 1, "Aldous Huxley"),
        row(2, "Moby Dick", 2, "Herman Melville"),
        row(3, "Omoo", 2, "Herman Melville"),
        row(4, "Rip Van Winkle", 3, "Washington Irving"),
        row(5, "The Raven and Other Poems", 4, "Edgar Allan Poe"),
        row(6, programming, 5, "Alistair Thompson"),
        row(6, programming, 6, "Emily Sinclair"),
    ]
}

#[test]
fn the_join_of_the_fixture_has_a_row_for_each_link() {
    let mut store = Store::new();
    seeds::run(&mut store).unwrap();
    assert_eq!(store.joined(), fixture_rows());
}

#[test]
fn an_author_of_two_books_has_one_entry_with_both() {
    let authors = group_by_author(fixture_rows());

    assert_eq!(authors.len(), 6);
    let melville = authors.get(&2).unwrap();
    assert_eq!(melville.author_id, 2);
    assert_eq!(melville.name, "Herman Melville");
    assert_eq!(
        melville.books,
        vec![
            Book {
                book_id: 2,
                name: "Moby Dick".to_owned()
            },
            Book {
                book_id: 3,
                name: "Omoo".to_owned()
            },
        ]
    );
}

#[test]
fn a_book_of_two_authors_has_one_entry_with_both() {
    let books = group_by_book(fixture_rows());

    assert_eq!(books.len(), 6);
    let programming = books.get(&6).unwrap();
    assert_eq!(programming.book_id, 6);
    assert_eq!(
        programming.name,
        "Mastering the Art of Programming: A Comprehensive Guide for Beginners"
    );
    assert_eq!(
        programming.authors,
        vec![
            Author {
                author_id: 5,
                name: "Alistair Thompson".to_owned()
            },
            Author {
                author_id: 6,
                name: "Emily Sinclair".to_owned()
            },
        ]
    );
    assert_eq!(books.get(&1).unwrap().authors.len(), 1);
}

#[test]
fn no_rows_give_no_entries() {
    assert!(group_by_book(Vec::new()).is_empty());
    assert!(group_by_author(Vec::new()).is_empty());
}

#[test]
fn a_row_that_comes_twice_gives_its_author_twice() {
    let books = group_by_book(vec![
        row(1, "Walden", 1, "Thoreau"),
        row(2, "Omoo", 2, "Melville"),
        row(1, "Walden", 1, "Thoreau"),
    ]);

    assert_eq!(books.len(), 2);
    let thoreau = Author {
        author_id: 1,
        name: "Thoreau".to_owned(),
    };
    assert_eq!(books.get(&1).unwrap().authors, vec![thoreau.clone(), thoreau]);
    assert_eq!(books.get(&2).unwrap().authors.len(), 1);

    let authors = group_by_author(vec![
        row(1, "Walden", 1, "Thoreau"),
        row(1, "Walden", 1, "Thoreau"),
    ]);
    assert_eq!(authors.len(), 1);
    assert_eq!(authors.get(&1).unwrap().books.len(), 2);
}

#[test]
fn the_related_rows_keep_the_order_of_the_join() {
    let books = group_by_book(vec![
        row(9, "Anthology", 3, "c"),
        row(4, "Other", 7, "z"),
        row(9, "Anthology", 1, "a"),
        row(9, "Anthology", 2, "b"),
    ]);
    let ids: Vec<i32> = books
        .get(&9)
        .unwrap()
        .authors
        .iter()
        .map(|author| author.author_id)
        .collect();
    assert_eq!(ids, vec![3, 1, 2]);
}

#[test]
fn an_entry_has_the_name_of_its_first_row() {
    let books = group_by_book(vec![
        row(1, "first name", 1, "a"),
        row(1, "second name", 2, "b"),
    ]);
    assert_eq!(books.get(&1).unwrap().name, "first name");
    let authors = group_by_author(vec![
        row(1, "x", 5, "first name"),
        row(2, "y", 5, "second name"),
    ]);
    assert_eq!(authors.get(&5).unwrap().name, "first name");
}

#[test]
fn a_book_without_an_author_has_no_entry() {
    let mut store = Store::new();
    seeds::run(&mut store).unwrap();
    let lonely_book = create_book(&mut store, "Anonymous").unwrap();
    let lonely_author = create_author(&mut store, "Unpublished").unwrap();

    let books = get_all_books_with_authors(&store);
    let authors = get_all_authors_with_books(&store);

    assert_eq!(books.len(), 6);
    assert!(books.get(&lonely_book).is_none());
    assert_eq!(authors.len(), 6);
    assert!(authors.get(&lonely_author).is_none());
}

#[test]
fn an_empty_storage_has_no_entries() {
    let store = Store::new();
    assert!(get_all_books_with_authors(&store).is_empty());
    assert!(get_all_authors_with_books(&store).is_empty());
    assert!(store.joined().is_empty());
}
