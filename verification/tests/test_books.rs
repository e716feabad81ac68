use bookstore::books::{
    create_book, create_book_and_author, delete_book, get_all_books, get_all_books_with_authors,
    get_book_by_id, update_book,
};
use bookstore::seeds;
use bookstore::store::Store;

#[test]
fn test_books_should_create_a_book() {
    let mut store = Store::new();
    let name = "aB3dE6gH";
    let new_book_id = create_book(&mut store, name).unwrap();
    let created_book = get_book_by_id(&store, new_book_id).unwrap();

    assert_eq!(name, created_book.name);
}

#[test]
fn test_books_should_get_one_book() {
    let mut store = Store::new();
    seeds::run(&mut store).unwrap();

    let book = get_book_by_id(&store, 1).unwrap();

    assert_eq!(book.book_id, 1);
    assert_eq!(book.name, "Brave New World");
}

#[test]
fn test_books_should_get_all_books() {
    let mut store = Store::new();
    seeds::run(&mut store).unwrap();
    let books = get_all_books(&store);
    let test_books = create_test_books();

    assert_eq!(books.len(), 6);

    for (index, book) in books.into_iter().enumerate() {
        assert_eq!(book.book_id, test_books[index].book_id);
        assert_eq!(book.name, test_books[index].name);
    }
}

#[test]
fn should_update_book() {
    let mut store = Store::new();
    seeds::run(&mut store).unwrap();

    let mut book = get_book_by_id(&store, 1).unwrap();
    book.name.push('!');

    update_book(&mut store, &book.name, book.book_id);

    let updated_book = get_book_by_id(&store, book.book_id).unwrap();

    assert_eq!(book.book_id, updated_book.book_id);
    assert_eq!(book.name, updated_book.name);
}

#[test]
fn should_delete_book() {
    let mut store = Store::new();
    seeds::run(&mut store).unwrap();

    delete_book(&mut store, 1);
    let deleted_book = get_book_by_id(&store, 1);

    assert!(deleted_book.is_none());

    let count = get_all_books(&store).len();

    assert_eq!(count, 5);
}

#[test]
fn should_create_book_and_author_together() {
    let mut store = Store::new();
    let book_name = "Zk81mQpx";
    let author_name = "t0Yw2RbN";

    let (book_id, author_id) = create_book_and_author(&mut store, book_name, author_name).unwrap();

    let rows = store.joined();
    let db_book_and_author = rows
        .iter()
        .find(|row| row.book_id == book_id && row.author_id == author_id)
        .unwrap();

    assert_eq!(book_name, db_book_and_author.book_name);
    assert_eq!(author_name, db_book_and_author.author_name);
    assert_eq!(author_id, db_book_and_author.author_id);
    assert_eq!(book_id, db_book_and_author.book_id);
}

#[test]
fn should_get_all_books_and_their_authors() {
    let mut store = Store::new();
    seeds::run(&mut store).unwrap();

    let books = get_all_books_with_authors(&store);
    let test_books = create_test_books();

    assert_eq!(books.len(), test_books.len());

    for test_book in test_books {
        let book = books.get(&test_book.book_id).unwrap();

        assert_eq!(book.book_id, test_book.book_id);
        assert_eq!(book.name, test_book.name);
        assert_eq!(book.authors.len(), test_book.authors.len());

        for test_author in test_book.authors {
            let author = book
                .authors
                .iter()
                .find(|author| author.author_id == test_author.author_id)
                .unwrap();

            assert_eq!(test_author.name, author.name);
        }
    }
}

fn create_test_books() -> Vec<TestBookWithAuthors> {
    vec![
        TestBookWithAuthors {
            book_id: 1,
            name: "Brave New World".to_owned(),
            authors: vec![TestAuthor {
                author_id: 1,
                name: "Aldous Huxley".to_owned(),
            }],
        },
        TestBookWithAuthors {
            book_id: 2,
            name: "Moby Dick".to_owned(),
            authors: vec![TestAuthor {
                author_id: 2,
                name: "Herman Melville".to_owned(),
            }],
        },
        TestBookWithAuthors {
            book_id: 3,
            name: "Omoo".to_owned(),
            authors: vec![TestAuthor {
                author_id: 2,
                name: "Herman Melville".to_owned(),
            }],
        },
        TestBookWithAuthors {
            book_id: 4,
            name: "Rip Van Winkle".to_owned(),
            authors: vec![TestAuthor {
                author_id: 3,
                name: "Washington Irving".to_owned(),
            }],
        },
        TestBookWithAuthors {
            book_id: 5,
            name: "The Raven and Other Poems".to_owned(),
            authors: vec![TestAuthor {
                author_id: 4,
                name: "Edgar Allan Poe".to_owned(),
            }],
        },
        TestBookWithAuthors {
            book_id: 6,
            name: "Mastering the Art of Programming: A Comprehensive Guide for Beginners"
                .to_owned(),
            authors: vec![
                TestAuthor {
                    author_id: 5,
                    name: "Alistair Thompson".to_owned(),
                },
                TestAuthor {
                    author_id: 6,
                    name: "Emily Sinclair".to_owned(),
                },
            ],
        },
    ]
}

struct TestBookWithAuthors {
    book_id: i32,
    name: String,
    authors: Vec<TestAuthor>,
}

struct TestAuthor {
    pub author_id: i32,
    pub name: String,
}
