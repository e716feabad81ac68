use bookstore::books::{create_book, get_all_books, get_book_by_id};
use bookstore::seeds;
use bookstore::store::Store;

#[test]
fn assessment_should_create_a_book() {
    let mut store = Store::new();
    let name = "u7Hj2KsQ";
    let new_book_id = create_book(&mut store, name).unwrap();
    let created_book = get_book_by_id(&store, new_book_id).unwrap();

    assert_eq!(name, created_book.name);
}

#[test]
fn assessment_should_get_one_book() {
    let mut store = Store::new();
    seeds::run(&mut store).unwrap();

    let book = get_book_by_id(&store, 1).unwrap();

    assert_eq!(book.book_id, 1);
    assert_eq!(book.name, "Brave New World");
}

#[test]
fn assessment_should_get_all_books() {
    let mut store = Store::new();
    seeds::run(&mut store).unwrap();
    let books = get_all_books(&store);
    let test_books = assessment_test_books();

    assert_eq!(books.len(), 6);

    for (index, book) in books.into_iter().enumerate() {
        assert_eq!(book.book_id, test_books[index].0);
        assert_eq!(book.name, test_books[index].1);
    }
}

fn assessment_test_books() -> Vec<(i32, String)> {
    vec![
        (1, "Brave New World".to_owned()),
        (2, "Moby Dick".to_owned()),
        (3, "Omoo".to_owned()),
        (4, "Rip Van Winkle".to_owned()),
        (5, "The Raven and Other Poems".to_owned()),
        (
            6,
            "Mastering the Art of Programming: A Comprehensive Guide for Beginners".to_owned(),
        ),
    ]
}
