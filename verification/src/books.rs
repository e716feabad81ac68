//! Books: the rows of the `books` table and the operations on them.

use crate::authors::{author_at, author_views, has_author, index_of_author};
use crate::authors::{Author, AuthorId, AuthorView};
use crate::error::{StorageError, TransactionError, TransactionErrorView};
use crate::seqs::{lemma_filter_drops_one, lemma_filter_keeps_all, lemma_filter_member};
use crate::seqs::{lemma_filter_no_duplicates, lemma_filter_push};
use crate::store::{row_views, BookAuthor, BookAuthorRow, BookAuthorRowView};
use crate::store::{Store, StoreState, Tables};
use crate::transaction::{pair, Order};
use std::collections::HashMap;
use vstd::prelude::*;

verus! {

/// Identifier of a book, generated by the storage on insertion.
pub type BookId = i32;

/// A book as a row of the `books` table.
#[derive(Debug, Clone, PartialEq, Eq)]
pub struct Book {
    pub book_id: BookId,
    pub name: String,
}

/// Mathematical value of a [`Book`].
pub struct BookView {
    pub book_id: BookId,
    pub name: Seq<char>,
}

impl View for Book {
    type V = BookView;

    open spec fn view(&self) -> BookView {
        BookView { book_id: self.book_id, name: self.name@ }
    }
}

/// The rows that a vector of books stands for.
pub open spec fn book_views(books: Seq<Book>) -> Seq<BookView> {
    Seq::new(books.len(), |i: int| books[i]@)
}

/// A book together with its authors.
#[derive(Debug, Clone, PartialEq, Eq)]
pub struct BookWithAuthors {
    pub book_id: BookId,
    pub name: String,
    pub authors: Vec<Author>,
}

/// Mathematical value of a [`BookWithAuthors`].
pub struct BookWithAuthorsView {
    pub book_id: BookId,
    pub name: Seq<char>,
    pub authors: Seq<AuthorView>,
}

impl View for BookWithAuthors {
    type V = BookWithAuthorsView;

    open spec fn view(&self) -> BookWithAuthorsView {
        BookWithAuthorsView {
            book_id: self.book_id,
            name: self.name@,
            authors: author_views(self.authors@),
        }
    }
}

/// The books that have authors, each with its authors, by the book's id.
pub type Books = HashMap<BookId, BookWithAuthors>;

/// What the storage says when every id for a book has been given out.
pub const NO_BOOK_ID_LEFT: &'static str = "no id is left for another book";

/// The row at position `i` of `books` has the id `book_id`.
pub open spec fn book_at(books: Seq<BookView>, i: int, book_id: BookId) -> bool {
    0 <= i < books.len() && books[i].book_id == book_id
}

/// Some row of `books` has the id `book_id`.
pub open spec fn has_book(books: Seq<BookView>, book_id: BookId) -> bool {
    exists|i: int| book_at(books, i, book_id)
}

/// The position of a row of `books` that has the id `book_id`.
pub open spec fn index_of_book(books: Seq<BookView>, book_id: BookId) -> int {
    choose|i: int| book_at(books, i, book_id)
}

/// No two rows of `books` have the same id.
pub open spec fn book_ids_differ(books: Seq<BookView>) -> bool {
    forall|i: int, j: int|
        0 <= i < j < books.len() ==> (#[trigger] books[i]).book_id != (
        #[trigger] books[j]).book_id
}

/// The test that a book passes unless its id is `book_id`.
pub open spec fn is_other_book(book_id: BookId) -> spec_fn(BookView) -> bool {
    |book: BookView| book.book_id != book_id
}

/// The test that a link passes unless it names the book `book_id`.
pub open spec fn is_of_other_book(book_id: BookId) -> spec_fn(BookAuthor) -> bool {
    |link: BookAuthor| link.book_id != book_id
}

/// The change that gives the book `book_id` the name `name` and leaves
/// every other book as it is.
pub open spec fn renaming_book(book_id: BookId, name: Seq<char>) -> spec_fn(BookView)
    -> BookView {
    |book: BookView|
        if book.book_id == book_id {
            BookView { book_id, name }
        } else {
            book
        }
}

impl Tables {
    /// Some row of `books` has the id `book_id`.
    pub open spec fn has_book(self, book_id: BookId) -> bool {
        has_book(self.books, book_id)
    }

    /// No two rows of `books` have the same id.
    pub open spec fn book_ids_differ(self) -> bool {
        book_ids_differ(self.books)
    }

    /// The row of `books` with the id `book_id`, if there is one.
    pub open spec fn find_book(self, book_id: BookId) -> Option<BookView> {
        if has_book(self.books, book_id) {
            Some(self.books[index_of_book(self.books, book_id)])
        } else {
            None
        }
    }

    /// The tables with one more row at the end of `books`.
    pub open spec fn with_book(self, book_id: BookId, name: Seq<char>) -> Tables {
        Tables { books: self.books.push(BookView { book_id, name }), ..self }
    }

    /// The tables in which the book `book_id`, if there is one, has the
    /// name `name`.
    pub open spec fn rename_book(self, book_id: BookId, name: Seq<char>) -> Tables {
        Tables { books: self.books.map_values(renaming_book(book_id, name)), ..self }
    }

    /// The tables without the book `book_id` and without the links that
    /// name it.
    pub open spec fn without_book(self, book_id: BookId) -> Tables {
        Tables {
            books: self.books.filter(is_other_book(book_id)),
            book_authors: self.book_authors.filter(is_of_other_book(book_id)),
            ..self
        }
    }
}

impl StoreState {
    /// The id that the next book gets.
    pub open spec fn next_book_id(self) -> int {
        self.last_book_id + 1
    }

    /// The storage after it has generated the next id for a book and
    /// inserted a book of that id and the name `name`.
    pub open spec fn with_new_book(self, name: Seq<char>) -> StoreState {
        StoreState {
            tables: self.tables.with_book(self.next_book_id() as BookId, name),
            last_book_id: self.next_book_id() as BookId,
            ..self
        }
    }

    /// The storage in which the book `book_id`, if there is one, has the
    /// name `name`.
    pub open spec fn rename_book(self, book_id: BookId, name: Seq<char>) -> StoreState {
        StoreState { tables: self.tables.rename_book(book_id, name), ..self }
    }

    /// The storage without the book `book_id` and without the links that
    /// name it.
    pub open spec fn without_book(self, book_id: BookId) -> StoreState {
        StoreState { tables: self.tables.without_book(book_id), ..self }
    }
}

/// Where ids differ, a row that has the id is the row that is found.
pub proof fn lemma_book_found(books: Seq<BookView>, i: int, book_id: BookId)
    requires
        book_ids_differ(books),
        book_at(books, i, book_id),
    ensures
        has_book(books, book_id),
        index_of_book(books, book_id) == i,
{
    let j = index_of_book(books, book_id);
    assert(book_at(books, j, book_id));
    if i < j {
        assert(books[i].book_id != books[j].book_id);
    }
    if j < i {
        assert(books[j].book_id != books[i].book_id);
    }
}

/// A storage stays consistent when it inserts a book under the next id.
pub proof fn lemma_with_new_book_consistent(store: StoreState, name: Seq<char>)
    requires
        store.consistent(),
        store.last_book_id < i32::MAX,
    ensures
        store.with_new_book(name).consistent(),
{
    let after = store.with_new_book(name);
    let old_books = store.tables.books;
    let new_books = after.tables.books;
    assert forall|i: int, j: int| 0 <= i < j < new_books.len() implies (
    #[trigger] new_books[i]).book_id != (#[trigger] new_books[j]).book_id by {
        assert(new_books[i] == old_books[i]);
        if j < old_books.len() {
            assert(new_books[j] == old_books[j]);
        }
    }
    assert forall|k: int| 0 <= k < after.tables.book_authors.len() implies has_book(
        new_books,
        (#[trigger] after.tables.book_authors[k]).book_id,
    ) by {
        let book_id = store.tables.book_authors[k].book_id;
        let i = index_of_book(old_books, book_id);
        assert(book_at(old_books, i, book_id));
        assert(book_at(new_books, i, book_id));
    }
    assert forall|i: int| 0 <= i < new_books.len() implies 1 <= (
    #[trigger] new_books[i]).book_id <= after.last_book_id by {
        if i < old_books.len() {
            assert(new_books[i] == old_books[i]);
        }
    }
}

/// A storage stays consistent when it renames a book.
pub proof fn lemma_rename_book_consistent(store: StoreState, book_id: BookId, name: Seq<char>)
    requires
        store.consistent(),
    ensures
        store.rename_book(book_id, name).consistent(),
{
    let after = store.rename_book(book_id, name);
    let old_books = store.tables.books;
    let new_books = after.tables.books;
    assert forall|i: int| 0 <= i < new_books.len() implies (
    #[trigger] new_books[i]).book_id == old_books[i].book_id by {}
    assert forall|i: int, j: int| 0 <= i < j < new_books.len() implies (
    #[trigger] new_books[i]).book_id != (#[trigger] new_books[j]).book_id by {
        assert(old_books[i].book_id != old_books[j].book_id);
    }
    assert forall|k: int| 0 <= k < after.tables.book_authors.len() implies has_book(
        new_books,
        (#[trigger] after.tables.book_authors[k]).book_id,
    ) by {
        let linked = store.tables.book_authors[k].book_id;
        let i = index_of_book(old_books, linked);
        assert(book_at(old_books, i, linked));
        assert(book_at(new_books, i, linked));
    }
    assert forall|i: int| 0 <= i < new_books.len() implies 1 <= (
    #[trigger] new_books[i]).book_id <= after.last_book_id by {
        assert(1 <= old_books[i].book_id <= store.last_book_id);
    }
}

/// What the removal of a book leaves of `books`: without a row of that id
/// the table is as it was; with one, that row is gone and the others keep
/// their order.
pub proof fn lemma_books_without(books: Seq<BookView>, book_id: BookId)
    requires
        book_ids_differ(books),
    ensures
        !has_book(books, book_id) ==> books.filter(is_other_book(book_id)) == books,
        has_book(books, book_id) ==> books.filter(is_other_book(book_id))
            == books.remove(index_of_book(books, book_id)),
{
    let keep = is_other_book(book_id);
    if has_book(books, book_id) {
        let i = index_of_book(books, book_id);
        assert(book_at(books, i, book_id));
        assert forall|j: int| 0 <= j < books.len() && j != i implies keep(
            #[trigger] books[j],
        ) by {
            if j < i {
                assert(books[j].book_id != books[i].book_id);
            } else {
                assert(books[i].book_id != books[j].book_id);
            }
        }
        lemma_filter_drops_one(books, keep, i);
    } else {
        assert forall|j: int| 0 <= j < books.len() implies keep(#[trigger] books[j]) by {
            assert(!book_at(books, j, book_id));
        }
        lemma_filter_keeps_all(books, keep);
    }
}

/// A storage stays consistent when it removes a book and the links that
/// name it.
pub proof fn lemma_without_book_consistent(store: StoreState, book_id: BookId)
    requires
        store.consistent(),
    ensures
        store.without_book(book_id).consistent(),
{
    let after = store.without_book(book_id);
    let old_books = store.tables.books;
    let new_books = after.tables.books;
    let old_links = store.tables.book_authors;
    let new_links = after.tables.book_authors;
    lemma_books_without(old_books, book_id);
    lemma_filter_no_duplicates(old_links, is_of_other_book(book_id));
    // Every row that is left was there before, and no other row of its id.
    assert forall|i: int| 0 <= i < new_books.len() implies exists|m: int|
        0 <= m < old_books.len() && old_books[m] == #[trigger] new_books[i] by {
        if has_book(old_books, book_id) {
            let gone = index_of_book(old_books, book_id);
            assert(book_at(old_books, gone, book_id));
            if i < gone {
                assert(old_books[i] == new_books[i]);
            } else {
                assert(old_books[i + 1] == new_books[i]);
            }
        } else {
            assert(old_books[i] == new_books[i]);
        }
    }
    assert forall|i: int, j: int| 0 <= i < j < new_books.len() implies (
    #[trigger] new_books[i]).book_id != (#[trigger] new_books[j]).book_id by {
        if has_book(old_books, book_id) {
            let gone = index_of_book(old_books, book_id);
            assert(book_at(old_books, gone, book_id));
            let m = if i < gone { i } else { i + 1 };
            let n = if j < gone { j } else { j + 1 };
            assert(old_books[m].book_id != old_books[n].book_id);
        } else {
            assert(old_books[i].book_id != old_books[j].book_id);
        }
    }
    assert forall|i: int| 0 <= i < new_books.len() implies 1 <= (
    #[trigger] new_books[i]).book_id <= after.last_book_id by {
        let m = choose|m: int| 0 <= m < old_books.len() && old_books[m] == new_books[i];
        assert(1 <= old_books[m].book_id <= store.last_book_id);
    }
    assert forall|k: int| 0 <= k < new_links.len() implies {
        &&& has_book(new_books, (#[trigger] new_links[k]).book_id)
        &&& after.tables.has_author(new_links[k].author_id)
    } by {
        lemma_filter_member(old_links, is_of_other_book(book_id), k);
        let n = choose|n: int| 0 <= n < old_links.len() && old_links[n] == new_links[k];
        let linked = old_links[n].book_id;
        assert(linked != book_id);
        let at = index_of_book(old_books, linked);
        assert(book_at(old_books, at, linked));
        if has_book(old_books, book_id) {
            let gone = index_of_book(old_books, book_id);
            assert(book_at(old_books, gone, book_id));
            if at < gone {
                assert(book_at(new_books, at, linked));
            } else {
                assert(book_at(new_books, at - 1, linked));
            }
        } else {
            assert(book_at(new_books, at, linked));
        }
    }
}

/// The position of the book `book_id` in the storage, if it holds one.
pub(crate) fn position_of_book(store: &Store, book_id: BookId) -> (position: Option<usize>)
    requires
        store@.consistent(),
    ensures
        match position {
            Some(i) => book_at(store@.tables.books, i as int, book_id) && i
                == index_of_book(store@.tables.books, book_id),
            None => !has_book(store@.tables.books, book_id),
        },
{
    let mut i: usize = 0;
    while i < store.books.len()
        invariant
            store@.consistent(),
            i <= store.books.len(),
            forall|j: int| 0 <= j < i ==> !book_at(store@.tables.books, j, book_id),
        decreases store.books.len() - i,
    {
        if store.books[i].book_id == book_id {
            proof {
                assert(book_at(store@.tables.books, i as int, book_id));
                lemma_book_found(store@.tables.books, i as int, book_id);
            }
            return Some(i);
        }
        i += 1;
    }
    None
}

/// Inserts a book named `name` and returns the id that the storage
/// generated for it: the one after the last id generated for a book.
///
/// Fails, and changes nothing, when no id is left.
pub fn create_book(store: &mut Store, name: &str) -> (created: Result<BookId, StorageError>)
    requires
        old(store)@.consistent(),
    ensures
        final(store)@.consistent(),
        match created {
            Ok(book_id) => {
                &&& old(store)@.last_book_id < i32::MAX
                &&& book_id == old(store)@.next_book_id()
                &&& final(store)@ == old(store)@.with_new_book(name@)
            },
            Err(error) => {
                &&& old(store)@.last_book_id == i32::MAX
                &&& final(store)@ == old(store)@
                &&& error@ == NO_BOOK_ID_LEFT@
            },
        },
{
    if store.last_book_id == i32::MAX {
        return Err(StorageError { message: NO_BOOK_ID_LEFT.to_owned() });
    }
    let book_id = store.last_book_id + 1;
    store.last_book_id = book_id;
    store.books.push(Book { book_id, name: name.to_owned() });
    proof {
        let after = old(store)@.with_new_book(name@);
        assert(store@.tables.books =~= after.tables.books);
        lemma_with_new_book_consistent(old(store)@, name@);
    }
    Ok(book_id)
}

/// The book with the id `book_id`, or `None` where the storage holds no
/// such book.
pub fn get_book_by_id(store: &Store, book_id: BookId) -> (found: Option<Book>)
    requires
        store@.consistent(),
    ensures
        match found {
            Some(book) => store@.tables.find_book(book_id) == Some(book@),
            None => store@.tables.find_book(book_id) is None,
        },
{
    match position_of_book(store, book_id) {
        Some(i) => {
            let book = &store.books[i];
            Some(Book { book_id: book.book_id, name: book.name.clone() })
        },
        None => None,
    }
}

/// Every book, in the order of insertion.
pub fn get_all_books(store: &Store) -> (books: Vec<Book>)
    ensures
        book_views(books@) == store@.tables.books,
{
    let mut books: Vec<Book> = Vec::new();
    let mut i: usize = 0;
    while i < store.books.len()
        invariant
            i <= store.books.len(),
            books.len() == i,
            forall|j: int| 0 <= j < i ==> books[j]@ == store.books[j]@,
        decreases store.books.len() - i,
    {
        let book = &store.books[i];
        books.push(Book { book_id: book.book_id, name: book.name.clone() });
        i += 1;
    }
    assert(book_views(books@) =~= store@.tables.books);
    books
}

/// Gives the book `book_id` the name `name`. Where the storage holds no
/// such book, nothing changes.
pub fn update_book(store: &mut Store, name: &str, book_id: BookId)
    requires
        old(store)@.consistent(),
    ensures
        final(store)@.consistent(),
        final(store)@ == old(store)@.rename_book(book_id, name@),
{
    let position = position_of_book(store, book_id);
    match position {
        Some(i) => {
            store.books.set(i, Book { book_id, name: name.to_owned() });
            proof {
                let before = old(store)@.tables.books;
                let after = before.map_values(renaming_book(book_id, name@));
                assert forall|j: int| 0 <= j < before.len() implies store@.tables.books[j]
                    == after[j] by {
                    if j != i {
                        if j < i {
                            assert(before[j].book_id != before[i as int].book_id);
                        } else {
                            assert(before[i as int].book_id != before[j].book_id);
                        }
                    }
                }
                assert(store@.tables.books =~= after);
            }
        },
        None => {
            proof {
                let before = old(store)@.tables.books;
                let after = before.map_values(renaming_book(book_id, name@));
                assert forall|j: int| 0 <= j < before.len() implies before[j] == after[j] by {
                    assert(!book_at(before, j, book_id));
                }
                assert(before =~= after);
            }
        },
    }
    proof {
        lemma_rename_book_consistent(old(store)@, book_id, name@);
    }
}

/// Removes the book `book_id`, and with it the links that name it, so that
/// every link that is left names a book that exists. Where the storage
/// holds no such book, nothing changes.
pub fn delete_book(store: &mut Store, book_id: BookId)
    requires
        old(store)@.consistent(),
    ensures
        final(store)@.consistent(),
        final(store)@ == old(store)@.without_book(book_id),
{
    let position = position_of_book(store, book_id);
    let ghost keep = is_of_other_book(book_id);
    let mut kept: Vec<BookAuthor> = Vec::new();
    let mut k: usize = 0;
    while k < store.book_authors.len()
        invariant
            k <= store.book_authors.len(),
            keep == is_of_other_book(book_id),
            kept@ == store.book_authors@.take(k as int).filter(keep),
        decreases store.book_authors.len() - k,
    {
        let link = store.book_authors[k];
        proof {
            lemma_filter_push(store.book_authors@.take(k as int), link, keep);
            assert(store.book_authors@.take(k as int).push(link) =~= store.book_authors@.take(
                k + 1,
            ));
        }
        if link.book_id != book_id {
            kept.push(link);
        }
        k += 1;
    }
    proof {
        assert(store.book_authors@.take(k as int) =~= store.book_authors@);
        lemma_books_without(old(store)@.tables.books, book_id);
    }
    store.book_authors = kept;
    match position {
        Some(i) => {
            store.books.remove(i);
            assert(store@.tables.books =~= old(store)@.tables.books.remove(i as int));
        },
        None => {},
    }
    proof {
        assert(store@.tables.books =~= old(store)@.without_book(book_id).tables.books);
        lemma_without_book_consistent(old(store)@, book_id);
    }
}

/// A book that was created is found under the id that its creation
/// returned, with that id and with the name that was given.
pub proof fn lemma_created_book_is_found(store: StoreState, name: Seq<char>)
    requires
        store.consistent(),
        store.last_book_id < i32::MAX,
    ensures
        store.with_new_book(name).tables.find_book(store.next_book_id() as BookId) == Some(
            BookView { book_id: store.next_book_id() as BookId, name },
        ),
{
    let after = store.with_new_book(name);
    lemma_with_new_book_consistent(store, name);
    let i = store.tables.books.len() as int;
    assert(book_at(after.tables.books, i, store.next_book_id() as BookId));
    lemma_book_found(after.tables.books, i, store.next_book_id() as BookId);
}

/// The creation of a book leaves every other book as it was.
pub proof fn lemma_created_book_is_new(store: StoreState, name: Seq<char>, other: BookId)
    requires
        store.consistent(),
        store.last_book_id < i32::MAX,
        other != store.next_book_id(),
    ensures
        !store.tables.has_book(store.next_book_id() as BookId),
        store.with_new_book(name).tables.find_book(other) == store.tables.find_book(other),
{
    let before = store.tables.books;
    let after = store.with_new_book(name).tables.books;
    lemma_with_new_book_consistent(store, name);
    lemma_book_is_absent(store, store.next_book_id() as BookId);
    if has_book(before, other) {
        let i = index_of_book(before, other);
        assert(book_at(before, i, other));
        assert(book_at(after, i, other));
        lemma_book_found(after, i, other);
    } else {
        if has_book(after, other) {
            let i = index_of_book(after, other);
            assert(book_at(after, i, other));
            assert(book_at(before, i, other));
        }
    }
}

/// An id that was never generated names no book: no book is found under
/// an id below 1 or beyond the last id that was generated.
pub proof fn lemma_book_is_absent(store: StoreState, book_id: BookId)
    requires
        store.consistent(),
        book_id < 1 || book_id > store.last_book_id,
    ensures
        store.tables.find_book(book_id) is None,
{
    if has_book(store.tables.books, book_id) {
        let i = index_of_book(store.tables.books, book_id);
        assert(book_at(store.tables.books, i, book_id));
        assert(1 <= store.tables.books[i].book_id <= store.last_book_id);
    }
}

/// Where the storage holds no book of the id, deleting it changes nothing,
/// and so does renaming it.
pub proof fn lemma_absent_book_changes_nothing(
    store: StoreState,
    book_id: BookId,
    name: Seq<char>,
)
    requires
        store.consistent(),
        !store.tables.has_book(book_id),
    ensures
        store.without_book(book_id) == store,
        store.rename_book(book_id, name) == store,
{
    let books = store.tables.books;
    let links = store.tables.book_authors;
    lemma_books_without(books, book_id);
    assert forall|k: int| 0 <= k < links.len() implies is_of_other_book(book_id)(
        #[trigger] links[k],
    ) by {
        assert(has_book(books, links[k].book_id));
    }
    lemma_filter_keeps_all(links, is_of_other_book(book_id));
    let renamed = books.map_values(renaming_book(book_id, name));
    assert forall|i: int| 0 <= i < books.len() implies books[i] == #[trigger] renamed[i] by {
        assert(!book_at(books, i, book_id));
    }
    assert(renamed =~= books);
}

/// A book that was renamed is found under its id, with that id and with
/// the new name, and every other book is as it was.
pub proof fn lemma_renamed_book_is_found(
    store: StoreState,
    book_id: BookId,
    name: Seq<char>,
    other: BookId,
)
    requires
        store.consistent(),
        store.tables.has_book(book_id),
        other != book_id,
    ensures
        store.rename_book(book_id, name).tables.find_book(book_id) == Some(
            BookView { book_id, name },
        ),
        store.rename_book(book_id, name).tables.find_book(other)
            == store.tables.find_book(other),
        store.rename_book(book_id, name).tables.books.len() == store.tables.books.len(),
{
    let before = store.tables.books;
    let after = store.rename_book(book_id, name).tables.books;
    lemma_rename_book_consistent(store, book_id, name);
    let i = index_of_book(before, book_id);
    assert(book_at(before, i, book_id));
    assert(book_at(after, i, book_id));
    lemma_book_found(after, i, book_id);
    if has_book(before, other) {
        let j = index_of_book(before, other);
        assert(book_at(before, j, other));
        assert(book_at(after, j, other));
        lemma_book_found(after, j, other);
    } else {
        if has_book(after, other) {
            let j = index_of_book(after, other);
            assert(book_at(after, j, other));
            assert(book_at(before, j, other));
        }
    }
}

/// A book that was deleted is found no more, the table has one row less,
/// and every other book is as it was.
pub proof fn lemma_deleted_book_is_gone(store: StoreState, book_id: BookId, other: BookId)
    requires
        store.consistent(),
        store.tables.has_book(book_id),
        other != book_id,
    ensures
        store.without_book(book_id).tables.find_book(book_id) is None,
        store.without_book(book_id).tables.books.len() == store.tables.books.len() - 1,
        store.without_book(book_id).tables.find_book(other)
            == store.tables.find_book(other),
{
    let before = store.tables.books;
    let after = store.without_book(book_id).tables.books;
    lemma_books_without(before, book_id);
    lemma_without_book_consistent(store, book_id);
    let gone = index_of_book(before, book_id);
    assert(book_at(before, gone, book_id));
    if has_book(after, book_id) {
        let i = index_of_book(after, book_id);
        assert(book_at(after, i, book_id));
        if i < gone {
            assert(before[i].book_id != before[gone].book_id);
        } else {
            assert(before[gone].book_id != before[i + 1].book_id);
        }
    }
    if has_book(before, other) {
        let j = index_of_book(before, other);
        assert(book_at(before, j, other));
        let moved = if j < gone { j } else { j - 1 };
        assert(book_at(after, moved, other));
        lemma_book_found(after, moved, other);
    } else {
        if has_book(after, other) {
            let j = index_of_book(after, other);
            assert(book_at(after, j, other));
            let origin = if j < gone { j } else { j + 1 };
            assert(book_at(before, origin, other));
        }
    }
}

/// The test that a joined row passes if its book is `book_id`.
pub open spec fn is_of_book(book_id: BookId) -> spec_fn(BookAuthorRowView) -> bool {
    |row: BookAuthorRowView| row.book_id == book_id
}

/// The author of a joined row.
pub open spec fn author_of_row() -> spec_fn(BookAuthorRowView) -> AuthorView {
    |row: BookAuthorRowView| row.author()
}

/// The rows of a join that belong to the book `book_id`, in their order.
pub open spec fn rows_of_book(rows: Seq<BookAuthorRowView>, book_id: BookId) -> Seq<
    BookAuthorRowView,
> {
    rows.filter(is_of_book(book_id))
}

/// The book `book_id` with its authors, as the rows of a join give them:
/// the name that the first of its rows has, and the author of each of its
/// rows, in the order of the rows. A row that occurs twice gives its author
/// twice.
pub open spec fn book_with_authors(rows: Seq<BookAuthorRowView>, book_id: BookId)
    -> BookWithAuthorsView {
    let own = rows_of_book(rows, book_id);
    BookWithAuthorsView {
        book_id,
        name: own[0].book_name,
        authors: own.map_values(author_of_row()),
    }
}

/// The books that the rows of a join hold, each with its authors. A book
/// without a row is not among them.
pub open spec fn books_with_authors(rows: Seq<BookAuthorRowView>) -> Map<
    BookId,
    BookWithAuthorsView,
> {
    Map::new(
        |book_id: BookId| rows_of_book(rows, book_id).len() > 0,
        |book_id: BookId| book_with_authors(rows, book_id),
    )
}

/// The mathematical value of each book of a map.
pub open spec fn books_view(books: Map<BookId, BookWithAuthors>) -> Map<
    BookId,
    BookWithAuthorsView,
> {
    books.map_values(|book: BookWithAuthors| book@)
}

/// What one more row at the end of a join makes of a book with its authors.
proof fn lemma_book_with_authors_push(
    rows: Seq<BookAuthorRowView>,
    row: BookAuthorRowView,
    book_id: BookId,
)
    ensures
        ({
            let own = rows_of_book(rows, book_id);
            let grown = rows_of_book(rows.push(row), book_id);
            let before = book_with_authors(rows, book_id);
            let after = book_with_authors(rows.push(row), book_id);
            &&& book_id != row.book_id ==> grown == own
            &&& book_id == row.book_id ==> grown == own.push(row)
            &&& book_id == row.book_id && own.len() == 0 ==> after == (BookWithAuthorsView {
                book_id,
                name: row.book_name,
                authors: seq![row.author()],
            })
            &&& book_id == row.book_id && own.len() > 0 ==> after == (BookWithAuthorsView {
                authors: before.authors.push(row.author()),
                ..before
            })
        }),
{
    lemma_filter_push(rows, row, is_of_book(book_id));
    if book_id == row.book_id {
        let own = rows_of_book(rows, book_id);
        let grown = rows_of_book(rows.push(row), book_id);
        assert(grown == own.push(row));
        assert(grown.map_values(author_of_row()) =~= own.map_values(author_of_row()).push(
            row.author(),
        ));
        if own.len() == 0 {
            assert(grown.map_values(author_of_row()) =~= seq![row.author()]);
        }
    }
}

/// Gathers the rows of a join by book: each book that has a row, with the
/// authors of its rows in the order of the rows.
pub fn group_by_book(rows: Vec<BookAuthorRow>) -> (books: Books)
    ensures
        books_view(books@) == books_with_authors(row_views(rows@)),
{
    broadcast use vstd::std_specs::hash::group_hash_axioms;

    let ghost all = row_views(rows@);
    let ghost mut seen = all.take(0);
    let mut books = Books::new();
    proof {
        reveal(Seq::filter);
        assert(seen =~= Seq::empty());
    }
    for row in it: rows
        invariant
            it.seq() == rows@,
            all == row_views(rows@),
            seen == all.take(it.index()),
            forall|book_id: BookId|
                books@.contains_key(book_id) <==> rows_of_book(seen, book_id).len() > 0,
            forall|book_id: BookId|
                books@.contains_key(book_id) ==> (#[trigger] books@[book_id])@
                    == book_with_authors(seen, book_id),
    {
        let ghost before = books@;
        let ghost joined = row@;
        let ghost grown = seen.push(joined);
        proof {
            assert(grown =~= all.take(it.index() + 1));
            assert forall|book_id: BookId| book_id != joined.book_id implies (
            #[trigger] rows_of_book(grown, book_id)) == rows_of_book(seen, book_id) by {
                lemma_book_with_authors_push(seen, joined, book_id);
            }
            lemma_book_with_authors_push(seen, joined, joined.book_id);
        }
        let book = books.entry(row.book_id).or_insert(
            BookWithAuthors { authors: vec![], book_id: row.book_id, name: row.book_name },
        );
        let ghost found = *book;
        let author = Author { author_id: row.author_id, name: row.author_name };
        book.authors.push(author);
        proof {
            let key = joined.book_id;
            assert(books@ == before.insert(key, books@[key]));
            assert(books@[key].authors@ == found.authors@.push(author));
            assert(author_views(books@[key].authors@) =~= author_views(found.authors@).push(
                author@,
            ));
            if before.contains_key(key) {
                assert(found == before[key]);
            } else {
                assert(author_views(found.authors@) =~= Seq::empty());
                assert(author_views(books@[key].authors@) =~= seq![author@]);
            }
            assert(books@[key]@ == book_with_authors(grown, key));
            assert forall|book_id: BookId| books@.contains_key(book_id) implies (
            #[trigger] books@[book_id])@ == book_with_authors(grown, book_id) by {
                if book_id != key {
                    assert(before.contains_key(book_id));
                    assert(rows_of_book(grown, book_id) == rows_of_book(seen, book_id));
                }
            }
            assert forall|book_id: BookId| books@.contains_key(book_id) <==> rows_of_book(
                grown,
                book_id,
            ).len() > 0 by {
                if book_id != key {
                    assert(rows_of_book(grown, book_id) == rows_of_book(seen, book_id));
                }
            }
            seen = grown;
        }
    }
    proof {
        assert(seen =~= all);
        assert(books_view(books@) =~= books_with_authors(all));
    }
    books
}

/// What the join of consistent tables gives for a book.
///
/// - The book is among the books with authors if and only if a link names
///   it: a book without a link does not appear.
/// - It appears under its id, with the name that it has in `books`.
/// - Each of its authors is named by a link of the book, and is the author
///   that `authors` holds under that id.
pub proof fn lemma_book_with_authors_of_tables(tables: Tables, book_id: BookId)
    requires
        tables.consistent(),
    ensures
        books_with_authors(tables.joined()).contains_key(book_id) <==> exists|k: int|
            0 <= k < tables.book_authors.len() && (#[trigger] tables.book_authors[k]).book_id
                == book_id,
        books_with_authors(tables.joined()).contains_key(book_id) ==> {
            let book = books_with_authors(tables.joined())[book_id];
            &&& book.book_id == book_id
            &&& tables.find_book(book_id) == Some(BookView { book_id, name: book.name })
            &&& forall|n: int|
                0 <= n < book.authors.len() ==> {
                    &&& tables.find_author((#[trigger] book.authors[n]).author_id) == Some(
                        book.authors[n],
                    )
                    &&& exists|k: int|
                        0 <= k < tables.book_authors.len() && #[trigger] tables.book_authors[k]
                            == (BookAuthor { book_id, author_id: book.authors[n].author_id })
                }
        },
{
    let links = tables.book_authors;
    let rows = tables.joined();
    let own = rows_of_book(rows, book_id);
    if exists|k: int| 0 <= k < links.len() && (#[trigger] links[k]).book_id == book_id {
        let k = choose|k: int| 0 <= k < links.len() && (#[trigger] links[k]).book_id == book_id;
        assert(is_of_book(book_id)(rows[k]));
        rows.lemma_filter_contains(is_of_book(book_id), k);
    }
    if own.len() > 0 {
        lemma_filter_member(rows, is_of_book(book_id), 0);
        let first = choose|i: int| 0 <= i < rows.len() && rows[i] == own[0];
        assert(links[first].book_id == book_id);
        assert(has_book(tables.books, links[first].book_id));
        let book = book_with_authors(rows, book_id);
        assert forall|n: int| 0 <= n < book.authors.len() implies {
            &&& tables.find_author((#[trigger] book.authors[n]).author_id) == Some(
                book.authors[n],
            )
            &&& exists|k: int|
                0 <= k < links.len() && #[trigger] links[k] == (BookAuthor {
                    book_id,
                    author_id: book.authors[n].author_id,
                })
        } by {
            lemma_filter_member(rows, is_of_book(book_id), n);
            let k = choose|k: int| 0 <= k < rows.len() && rows[k] == own[n];
            assert(links[k].book_id == book_id);
            let author_id = links[k].author_id;
            assert(has_author(tables.authors, links[k].author_id));
            let at = index_of_author(tables.authors, author_id);
            assert(author_at(tables.authors, at, author_id));
            assert(links[k] == (BookAuthor { book_id, author_id }));
        }
    }
}

/// Every book that has an author, with its authors: the rows of the join
/// of the three tables, gathered by book.
pub fn get_all_books_with_authors(store: &Store) -> (books: Books)
    requires
        store@.consistent(),
    ensures
        books_view(books@) == books_with_authors(store@.tables.joined()),
{
    group_by_book(store.joined())
}

/// Creates a book named `book_name`, an author named `author_name` and the
/// link between the two, all three or none, and returns the id of the book
/// and the id of the author.
///
/// The book is inserted first, then the author, then the link. Where no id
/// is left for one of the two, no row is kept and the error names the
/// insertion that failed.
pub fn create_book_and_author(store: &mut Store, book_name: &str, author_name: &str) -> (created:
    Result<(BookId, AuthorId), TransactionError>)
    requires
        old(store)@.consistent(),
    ensures
        final(store)@.consistent(),
        final(store)@ == old(store)@.paired(Order::BookFirst, book_name@, author_name@).0,
        match created {
            Ok(ids) => old(store)@.paired(Order::BookFirst, book_name@, author_name@).1 == Ok::<
                (BookId, AuthorId),
                TransactionErrorView,
            >(ids),
            Err(error) => old(store)@.paired(Order::BookFirst, book_name@, author_name@).1 == Err::<
                (BookId, AuthorId),
                TransactionErrorView,
            >(error@),
        },
{
    pair(store, Order::BookFirst, book_name, author_name)
}

} // verus!
