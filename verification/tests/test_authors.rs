use bookstore::authors::{
    create_author, create_author_and_book, delete_author, get_all_authors,
    get_all_authors_with_books, get_author_by_id, update_author,
};
use bookstore::seeds;
use bookstore::store::Store;

#[test]
fn test_authors_should_create_author() {
    let mut store = Store::new();
    let new_name = "Qw9xLm2R";
    let created_author_id = create_author(&mut store, new_name).unwrap();

    let created_author = get_author_by_id(&store, created_author_id).unwrap();

    assert_eq!(new_name, created_author.name);
    assert_eq!(created_author.author_id, created_author_id);
}

#[test]
fn test_authors_should_get_one_author() {
    let mut store = Store::new();
    seeds::run(&mut store).unwrap();

    let author = get_author_by_id(&store, 1).unwrap();

    assert_eq!(author.author_id, 1);
    assert_eq!(author.name, "Aldous Huxley".to_owned());
}

#[test]
fn test_authors_should_get_all_authors() {
    let mut store = Store::new();
    seeds::run(&mut store).unwrap();

    let authors = get_all_authors(&store);
    let test_authors = create_test_authors();

    assert_eq!(authors.len(), test_authors.len());

    for (index, author) in authors.into_iter().enumerate() {
        assert_eq!(author.author_id, test_authors[index].author_id);
        assert_eq!(author.name, test_authors[index].name);
    }
}

#[test]
fn test_authors_should_update_author() {
    let mut store = Store::new();
    seeds::run(&mut store).unwrap();

    let mut author = get_author_by_id(&store, 1).unwrap();
    author.name.push('!');

    update_author(&mut store, 1, &author.name);
    let updated_author = get_author_by_id(&store, author.author_id).unwrap();

    assert_eq!(author.author_id, updated_author.author_id);
    assert_eq!(author.name, updated_author.name);
}

#[test]
fn test_authors_should_delete_author() {
    let mut store = Store::new();
    seeds::run(&mut store).unwrap();

    delete_author(&mut store, 1);
    let deleted_author = get_author_by_id(&store, 1);

    assert!(deleted_author.is_none());
}

#[test]
fn test_authors_should_create_author_and_book() {
    let mut store = Store::new();
    let author_name = "hG5tVc0P";
    let book_name = "Nn3sD8uJ";

    let (author_id, book_id) = create_author_and_book(&mut store, author_name, book_name).unwrap();

    let rows = store.joined();
    assert_eq!(rows.len(), 1);
    let test_author_book = &rows[0];

    assert_eq!(test_author_book.author_id, author_id);
    assert_eq!(test_author_book.book_id, book_id);
    assert_eq!(test_author_book.author_name, author_name);
    assert_eq!(test_author_book.book_name, book_name);
}

#[test]
fn should_get_all_authors_and_their_books() {
    let mut store = Store::new();
    seeds::run(&mut store).unwrap();

    let authors = get_all_authors_with_books(&store);
    let test_authors = create_test_authors();

    assert_eq!(authors.len(), test_authors.len());

    for test_author in test_authors {
        let author = authors.get(&test_author.author_id).unwrap();

        assert_eq!(test_author.author_id, author.author_id);
        assert_eq!(test_author.name, author.name);
        assert_eq!(test_author.books.len(), author.books.len());

        for test_book in test_author.books {
            let book = author
                .books
                .iter()
                .find(|book| book.book_id == test_book.book_id)
                .unwrap();

            assert_eq!(test_book.book_id, book.book_id);
            assert_eq!(test_book.name, book.name);
        }
    }
}

fn create_test_authors() -> Vec<TestAuthorWithBooks> {
    vec![
        TestAuthorWithBooks {
            author_id: 1,
            name: "Aldous Huxley".to_owned(),
            books: vec![TestBook {
                book_id: 1,
                name: "Brave New World".to_owned(),
            }],
        },
        TestAuthorWithBooks {
            author_id: 2,
            name: "Herman Melville".to_owned(),
            books: vec![
                TestBook {
                    book_id: 2,
                    name: "Moby Dick".to_owned(),
                },
                TestBook {
                    book_id: 3,
                    name: "Omoo".to_owned(),
                },
            ],
        },
        TestAuthorWithBooks {
            author_id: 3,
            name: "Washington Irving".to_owned(),
            books: vec![TestBook {
                book_id: 4,
                name: "Rip Van Winkle".to_owned(),
            }],
        },
        TestAuthorWithBooks {
            author_id: 4,
            name: "Edgar Allan Poe".to_owned(),
            books: vec![TestBook {
                book_id: 5,
                name: "The Raven and Other Poems".to_owned(),
            }],
        },
        TestAuthorWithBooks {
            author_id: 5,
            name: "Alistair Thompson".to_owned(),
            books: vec![TestBook {
                book_id: 6,
                name: "Mastering the Art of Programming: A Comprehensive Guide for Beginners"
                    .to_owned(),
            }],
        },
        TestAuthorWithBooks {
            author_id: 6,
            name: "Emily Sinclair".to_owned(),
            books: vec![TestBook {
                book_id: 6,
                name: "Mastering the Art of Programming: A Comprehensive Guide for Beginners"
                    .to_owned(),
            }],
        },
    ]
}

struct TestAuthorWithBooks {
    author_id: i32,
    name: String,
    books: Vec<TestBook>,
}

struct TestBook {
    book_id: i32,
    name: String,
}
