use bookstore::authors::{create_author_and_book, get_all_authors, NO_AUTHOR_ID_LEFT};
use bookstore::books::{create_book, create_book_and_author, get_all_books, NO_BOOK_ID_LEFT};
use bookstore::error::{Step, StorageError, TransactionError};
use bookstore::store::{BookAuthorRow, Store};
use bookstore::transaction::{pair, Action, Event, Order, Pairing, Progress, NO_ID_RETURNED};

fn failure(message: &str) -> StorageError {
    StorageError {
        message: message.to_owned(),
    }
}

fn next(progress: Progress) -> (Pairing, Action) {
    match progress {
        Progress::Next(pairing, action) => (pairing, action),
        Progress::Finished(result) => panic!("the transaction is over: {:?}", result),
    }
}

fn finished(progress: Progress) -> Result<(i32, i32), TransactionError> {
    match progress {
        Progress::Finished(result) => result,
        Progress::Next(_, action) => panic!("the transaction goes on: {:?}", action),
    }
}

#[test]
fn a_book_and_its_author_are_created_together() {
    let mut store = Store::new();

    let created = create_book_and_author(&mut store, "Walden", "Thoreau");

    assert_eq!(created, Ok((1, 1)));
    assert_eq!(
        store.joined(),
        vec![BookAuthorRow {
            book_id: 1,
            book_name: "Walden".to_owned(),
            author_id: 1,
            author_name: "Thoreau".to_owned(),
        }]
    );
    assert_eq!(get_all_books(&store).len(), 1);
    assert_eq!(get_all_authors(&store).len(), 1);
}

#[test]
fn the_ids_come_in_the_order_of_the_names() {
    let mut store = Store::resuming(10, 20).unwrap();
    assert_eq!(create_book_and_author(&mut store, "b", "a"), Ok((11, 21)));
    assert_eq!(create_author_and_book(&mut store, "a", "b"), Ok((22, 12)));
    let rows = store.joined();
    assert_eq!(rows.len(), 2);
    assert_eq!((rows[1].book_id, rows[1].author_id), (12, 22));
    assert_eq!(rows[1].book_name, "b");
    assert_eq!(rows[1].author_name, "a");
}

#[test]
fn the_book_does_not_stay_when_the_author_cannot_be_inserted() {
    let mut store = Store::resuming(0, i32::MAX).unwrap();
    create_book(&mut store, "there before").unwrap();
    let books = get_all_books(&store);

    let created = create_book_and_author(&mut store, "Walden", "Thoreau");

    assert_eq!(
        created,
        Err(TransactionError::Insertion {
            step: Step::Author,
            cause: failure(NO_AUTHOR_ID_LEFT),
        })
    );
    assert_eq!(get_all_books(&store), books);
    assert!(get_all_authors(&store).is_empty());
    assert!(store.joined().is_empty());
    // the id that the book had is used up
    assert_eq!(create_book(&mut store, "next"), Ok(3));
}

#[test]
fn nothing_changes_when_the_first_row_cannot_be_inserted() {
    let mut store = Store::resuming(i32::MAX, 5).unwrap();

    let created = create_book_and_author(&mut store, "Walden", "Thoreau");

    assert_eq!(
        created,
        Err(TransactionError::Insertion {
            step: Step::Book,
            cause: failure(NO_BOOK_ID_LEFT),
        })
    );
    assert!(get_all_books(&store).is_empty());
    assert!(get_all_authors(&store).is_empty());
    assert_eq!(
        create_author_and_book(&mut store, "a", "b"),
        Err(TransactionError::Insertion {
            step: Step::Book,
            cause: failure(NO_BOOK_ID_LEFT),
        })
    );
    // the author that was inserted first is gone, its id is used up
    assert!(get_all_authors(&store).is_empty());
    assert_eq!(
        pair(&mut store, Order::AuthorFirst, "b", "a"),
        Err(TransactionError::Insertion {
            step: Step::Book,
            cause: failure(NO_BOOK_ID_LEFT),
        })
    );
    assert!(get_all_authors(&store).is_empty());
}

#[test]
fn the_statements_come_in_their_order() {
    let (pairing, action) = Pairing::start(Order::BookFirst, "Walden", "Thoreau");
    assert_eq!(action, Action::Begin);
    assert_eq!(
        pairing,
        Pairing::Beginning {
            order: Order::BookFirst,
            book_name: "Walden".to_owned(),
            author_name: "Thoreau".to_owned(),
        }
    );

    let (pairing, action) = next(pairing.step(Event::Completed));
    assert_eq!(
        action,
        Action::InsertBook {
            name: "Walden".to_owned()
        }
    );
    let (pairing, action) = next(pairing.step(Event::Inserted(7)));
    assert_eq!(
        action,
        Action::InsertAuthor {
            name: "Thoreau".to_owned()
        }
    );
    let (pairing, action) = next(pairing.step(Event::Inserted(9)));
    assert_eq!(
        action,
        Action::Associate {
            book_id: 7,
            author_id: 9
        }
    );
    let (pairing, action) = next(pairing.step(Event::Completed));
    assert_eq!(action, Action::Commit);
    assert_eq!(finished(pairing.step(Event::Completed)), Ok((7, 9)));
}

#[test]
fn the_author_comes_first_where_that_is_the_order() {
    let (pairing, _) = Pairing::start(Order::AuthorFirst, "Walden", "Thoreau");
    let (pairing, action) = next(pairing.step(Event::Completed));
    assert_eq!(
        action,
        Action::InsertAuthor {
            name: "Thoreau".to_owned()
        }
    );
    let (pairing, action) = next(pairing.step(Event::Inserted(9)));
    assert_eq!(
        action,
        Action::InsertBook {
            name: "Walden".to_owned()
        }
    );
    let (pairing, action) = next(pairing.step(Event::Inserted(7)));
    assert_eq!(
        action,
        Action::Associate {
            book_id: 7,
            author_id: 9
        }
    );
    let (pairing, _) = next(pairing.step(Event::Completed));
    assert_eq!(finished(pairing.step(Event::Completed)), Ok((7, 9)));
}

#[test]
fn nothing_is_attempted_when_no_transaction_begins() {
    let (pairing, _) = Pairing::start(Order::BookFirst, "Walden", "Thoreau");
    assert_eq!(
        finished(pairing.step(Event::Failed(failure("connection refused")))),
        Err(TransactionError::Begin(failure("connection refused")))
    );
}

#[test]
fn a_failed_book_is_rolled_back() {
    let (pairing, _) = Pairing::start(Order::BookFirst, "Walden", "Thoreau");
    let (pairing, _) = next(pairing.step(Event::Completed));
    let (pairing, action) = next(pairing.step(Event::Failed(failure("name too long"))));
    assert_eq!(action, Action::Rollback);
    assert_eq!(
        finished(pairing.step(Event::Completed)),
        Err(TransactionError::Insertion {
            step: Step::Book,
            cause: failure("name too long"),
        })
    );
}

#[test]
fn a_failed_author_is_rolled_back() {
    let (pairing, _) = Pairing::start(Order::BookFirst, "Walden", "Thoreau");
    let (pairing, _) = next(pairing.step(Event::Completed));
    let (pairing, _) = next(pairing.step(Event::Inserted(1)));
    let (pairing, action) = next(pairing.step(Event::Failed(failure("duplicate key"))));
    assert_eq!(action, Action::Rollback);
    assert_eq!(
        finished(pairing.step(Event::Completed)),
        Err(TransactionError::Insertion {
            step: Step::Author,
            cause: failure("duplicate key"),
        })
    );
}

#[test]
fn the_failed_step_is_named_by_what_it_inserts() {
    let (pairing, _) = Pairing::start(Order::AuthorFirst, "Walden", "Thoreau");
    let (pairing, _) = next(pairing.step(Event::Completed));
    let (pairing, _) = next(pairing.step(Event::Failed(failure("first"))));
    assert_eq!(
        finished(pairing.step(Event::Completed)),
        Err(TransactionError::Insertion {
            step: Step::Author,
            cause: failure("first"),
        })
    );

    let (pairing, _) = Pairing::start(Order::AuthorFirst, "Walden", "Thoreau");
    let (pairing, _) = next(pairing.step(Event::Completed));
    let (pairing, _) = next(pairing.step(Event::Inserted(3)));
    let (pairing, _) = next(pairing.step(Event::Failed(failure("second"))));
    assert_eq!(
        finished(pairing.step(Event::Completed)),
        Err(TransactionError::Insertion {
            step: Step::Book,
            cause: failure("second"),
        })
    );
}

#[test]
fn a_failed_link_is_rolled_back_and_never_committed() {
    let (pairing, _) = Pairing::start(Order::BookFirst, "Walden", "Thoreau");
    let (pairing, _) = next(pairing.step(Event::Completed));
    let (pairing, _) = next(pairing.step(Event::Inserted(1)));
    let (pairing, _) = next(pairing.step(Event::Inserted(2)));
    let (pairing, action) = next(pairing.step(Event::Failed(failure("foreign key"))));
    assert_eq!(action, Action::Rollback);
    assert_eq!(
        pairing,
        Pairing::RollingBack {
            step: Step::Association,
            cause: failure("foreign key"),
        }
    );
    assert_eq!(
        finished(pairing.step(Event::Completed)),
        Err(TransactionError::Insertion {
            step: Step::Association,
            cause: failure("foreign key"),
        })
    );
}

#[test]
fn a_failed_rollback_is_what_is_reported() {
    let (pairing, _) = Pairing::start(Order::BookFirst, "Walden", "Thoreau");
    let (pairing, _) = next(pairing.step(Event::Completed));
    let (pairing, _) = next(pairing.step(Event::Inserted(1)));
    let (pairing, _) = next(pairing.step(Event::Inserted(2)));
    let (pairing, _) = next(pairing.step(Event::Failed(failure("foreign key"))));
    assert_eq!(
        finished(pairing.step(Event::Failed(failure("connection lost")))),
        Err(TransactionError::Rollback(failure("connection lost")))
    );
}

#[test]
fn a_failed_commit_gives_no_ids() {
    let (pairing, _) = Pairing::start(Order::BookFirst, "Walden", "Thoreau");
    let (pairing, _) = next(pairing.step(Event::Completed));
    let (pairing, _) = next(pairing.step(Event::Inserted(1)));
    let (pairing, _) = next(pairing.step(Event::Inserted(2)));
    let (pairing, _) = next(pairing.step(Event::Completed));
    assert_eq!(
        finished(pairing.step(Event::Failed(failure("serialization failure")))),
        Err(TransactionError::Commit(failure("serialization failure")))
    );
}

#[test]
fn an_insertion_without_an_id_has_failed() {
    let no_id = StorageError {
        message: NO_ID_RETURNED.to_owned(),
    };
    let (pairing, _) = Pairing::start(Order::BookFirst, "Walden", "Thoreau");
    let (pairing, _) = next(pairing.step(Event::Completed));
    let (pairing, action) = next(pairing.step(Event::Completed));
    assert_eq!(action, Action::Rollback);
    assert_eq!(
        finished(pairing.step(Event::Completed)),
        Err(TransactionError::Insertion {
            step: Step::Book,
            cause: no_id.clone(),
        })
    );

    let (pairing, _) = Pairing::start(Order::BookFirst, "Walden", "Thoreau");
    let (pairing, _) = next(pairing.step(Event::Completed));
    let (pairing, _) = next(pairing.step(Event::Inserted(4)));
    let (pairing, action) = next(pairing.step(Event::Completed));
    assert_eq!(action, Action::Rollback);
    assert_eq!(
        finished(pairing.step(Event::Completed)),
        Err(TransactionError::Insertion {
            step: Step::Author,
            cause: no_id,
        })
    );
}

#[test]
fn an_id_that_was_not_asked_for_is_no_failure() {
    let (pairing, _) = Pairing::start(Order::BookFirst, "Walden", "Thoreau");
    let (pairing, _) = next(pairing.step(Event::Inserted(0)));
    let (pairing, _) = next(pairing.step(Event::Inserted(1)));
    let (pairing, _) = next(pairing.step(Event::Inserted(2)));
    let (pairing, action) = next(pairing.step(Event::Inserted(3)));
    assert_eq!(action, Action::Commit);
    assert_eq!(finished(pairing.step(Event::Inserted(4))), Ok((1, 2)));
}
