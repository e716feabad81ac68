use bookstore::authors::{create_author, get_all_authors};
use bookstore::books::{create_book, get_all_books, get_all_books_with_authors};
use bookstore::error::StorageError;
use bookstore::seeds::{
    author_names, book_authors, book_names, run, Progress, Seeding, Statement, Table,
};
use bookstore::store::{BookAuthor, Store};

fn failure(message: &str) -> StorageError {
    StorageError {
        message: message.to_owned(),
    }
}

fn next(progress: Progress) -> (Seeding, Statement) {
    match progress {
        Progress::Next(seeding, statement) => (seeding, statement),
        Progress::Finished(result) => panic!("the transaction is over: {:?}", result),
    }
}

/// The statements that follow `Begin` when the three fills are answered as
/// given, up to the last one.
fn statements(answers: [Result<(), StorageError>; 3]) -> (Vec<Statement>, Seeding) {
    let (seeding, statement) = Seeding::start();
    let mut made = vec![statement];
    let (mut seeding, mut statement) = next(seeding.step(Ok(())));
    for answer in answers {
        made.push(statement);
        (seeding, statement) = next(seeding.step(answer));
    }
    made.push(statement);
    (made, seeding)
}

#[test]
fn the_fixture_has_six_books_six_authors_and_seven_links() {
    assert_eq!(book_names().len(), 6);
    assert_eq!(author_names().len(), 6);
    assert_eq!(book_authors().len(), 7);
    assert_eq!(book_names()[2], "Omoo");
    assert_eq!(author_names()[5], "Emily Sinclair");
    assert_eq!(
        book_authors()[6],
        BookAuthor {
            book_id: 6,
            author_id: 6
        }
    );
}

#[test]
fn what_was_filled_is_committed() {
    let (made, last) = statements([Ok(()), Ok(()), Ok(())]);
    assert_eq!(
        made,
        vec![
            Statement::Begin,
            Statement::Fill(Table::Books),
            Statement::Fill(Table::Authors),
            Statement::Fill(Table::BookAuthors),
            Statement::Commit,
        ]
    );
    assert_eq!(last.step(Ok(())), Progress::Finished(Ok(())));
}

#[test]
fn one_failure_rolls_everything_back_after_all_was_attempted() {
    let answers = [
        [Err(failure("x")), Ok(()), Ok(())],
        [Ok(()), Err(failure("x")), Ok(())],
        [Ok(()), Ok(()), Err(failure("x"))],
        [Err(failure("x")), Err(failure("y")), Err(failure("z"))],
    ];
    for answers in answers {
        let (made, last) = statements(answers);
        assert_eq!(
            made,
            vec![
                Statement::Begin,
                Statement::Fill(Table::Books),
                Statement::Fill(Table::Authors),
                Statement::Fill(Table::BookAuthors),
                Statement::Rollback,
            ]
        );
        assert_eq!(last, Seeding::RollingBack);
        // a rollback that completed is no failure
        assert_eq!(last.step(Ok(())), Progress::Finished(Ok(())));
    }
}

#[test]
fn the_failure_of_the_last_statement_is_the_result() {
    assert_eq!(
        Seeding::Committing.step(Err(failure("commit"))),
        Progress::Finished(Err(failure("commit")))
    );
    assert_eq!(
        Seeding::RollingBack.step(Err(failure("rollback"))),
        Progress::Finished(Err(failure("rollback")))
    );
    assert_eq!(
        Seeding::Beginning.step(Err(failure("begin"))),
        Progress::Finished(Err(failure("begin")))
    );
}

#[test]
fn the_fixture_is_loaded_into_an_empty_storage() {
    let mut store = Store::new();

    assert_eq!(run(&mut store), Ok(()));

    let books: Vec<(i32, String)> = get_all_books(&store)
        .into_iter()
        .map(|book| (book.book_id, book.name))
        .collect();
    let expected: Vec<(i32, String)> = book_names()
        .into_iter()
        .enumerate()
        .map(|(index, name)| (index as i32 + 1, name.to_owned()))
        .collect();
    assert_eq!(books, expected);
    assert_eq!(get_all_authors(&store).len(), 6);
    assert_eq!(store.joined().len(), 7);
    assert_eq!(create_book(&mut store, "next"), Ok(7));
    assert_eq!(create_author(&mut store, "next"), Ok(7));
}

#[test]
fn a_second_load_leaves_the_first_as_it_is() {
    let mut store = Store::new();
    run(&mut store).unwrap();
    let books = get_all_books(&store);
    let authors = get_all_authors(&store);
    let rows = store.joined();

    // the links of the fixture are there already, so the second load is
    // rolled back
    assert_eq!(run(&mut store), Ok(()));

    assert_eq!(get_all_books(&store), books);
    assert_eq!(get_all_authors(&store), authors);
    assert_eq!(store.joined(), rows);
    assert_eq!(get_all_books_with_authors(&store).len(), 6);
    // the ids of the rows that were rolled back are used up
    assert_eq!(create_book(&mut store, "next"), Ok(13));
    assert_eq!(create_author(&mut store, "next"), Ok(13));
}

#[test]
fn nothing_stays_when_the_links_name_rows_that_are_not_there() {
    let mut store = Store::resuming(10, 10).unwrap();

    assert_eq!(run(&mut store), Ok(()));

    assert!(get_all_books(&store).is_empty());
    assert!(get_all_authors(&store).is_empty());
    assert!(store.joined().is_empty());
    // the ids of the rows that were rolled back are used up
    assert_eq!(create_book(&mut store, "next"), Ok(17));
    assert_eq!(create_author(&mut store, "next"), Ok(17));
}

#[test]
fn nothing_stays_when_the_ids_do_not_suffice() {
    let mut store = Store::resuming(i32::MAX - 3, 0).unwrap();
    create_book(&mut store, "there before").unwrap();
    let books = get_all_books(&store);

    assert_eq!(run(&mut store), Ok(()));

    assert_eq!(get_all_books(&store), books);
    assert!(get_all_authors(&store).is_empty());
    assert!(store.joined().is_empty());
    assert!(create_book(&mut store, "none left").is_err());
    assert_eq!(create_author(&mut store, "next"), Ok(7));
}
