//! Authors: the rows of the `authors` table and the operations on them.

use crate::books::{book_at, book_views, has_book, index_of_book};
use crate::books::{Book, BookId, BookView};
use crate::error::{StorageError, TransactionError, TransactionErrorView};
use crate::seqs::{lemma_filter_drops_one, lemma_filter_keeps_all, lemma_filter_member};
use crate::seqs::{lemma_filter_no_duplicates, lemma_filter_push};
use crate::store::{row_views, BookAuthor, BookAuthorRow, BookAuthorRowView};
use crate::store::{Store, StoreState, Tables};
use crate::transaction::{pair, Order};
use std::collections::HashMap;
use vstd::prelude::*;

verus! {

/// Identifier of an author, generated by the storage on insertion.
pub type AuthorId = i32;

/// An author as a row of the `authors` table.
#[derive(Debug, Clone, PartialEq, Eq)]
pub struct Author {
    pub author_id: AuthorId,
    pub name: String,
}

/// Mathematical value of an [`Author`].
pub struct AuthorView {
    pub author_id: AuthorId,
    pub name: Seq<char>,
}

impl View for Author {
    type V = AuthorView;

    open spec fn view(&self) -> AuthorView {
        AuthorView { author_id: self.author_id, name: self.name@ }
    }
}

/// The rows that a vector of authors stands for.
pub open spec fn author_views(authors: Seq<Author>) -> Seq<AuthorView> {
    Seq::new(authors.len(), |i: int| authors[i]@)
}

/// An author together with its books.
#[derive(Debug, Clone, PartialEq, Eq)]
pub struct AuthorWithBooks {
    pub author_id: AuthorId,
    pub name: String,
    pub books: Vec<Book>,
}

/// Mathematical value of an [`AuthorWithBooks`].
pub struct AuthorWithBooksView {
    pub author_id: AuthorId,
    pub name: Seq<char>,
    pub books: Seq<BookView>,
}

impl View for AuthorWithBooks {
    type V = AuthorWithBooksView;

    open spec fn view(&self) -> AuthorWithBooksView {
        AuthorWithBooksView {
            author_id: self.author_id,
            name: self.name@,
            books: book_views(self.books@),
        }
    }
}

/// The authors that have books, each with its books, by the author's id.
pub type Authors = HashMap<AuthorId, AuthorWithBooks>;

/// What the storage says when every id for an author has been given out.
pub const NO_AUTHOR_ID_LEFT: &'static str = "no id is left for another author";

/// The row at position `i` of `authors` has the id `author_id`.
pub open spec fn author_at(authors: Seq<AuthorView>, i: int, author_id: AuthorId) -> bool {
    0 <= i < authors.len() && authors[i].author_id == author_id
}

/// Some row of `authors` has the id `author_id`.
pub open spec fn has_author(authors: Seq<AuthorView>, author_id: AuthorId) -> bool {
    exists|i: int| author_at(authors, i, author_id)
}

/// The position of a row of `authors` that has the id `author_id`.
pub open spec fn index_of_author(authors: Seq<AuthorView>, author_id: AuthorId) -> int {
    choose|i: int| author_at(authors, i, author_id)
}

/// No two rows of `authors` have the same id.
pub open spec fn author_ids_differ(authors: Seq<AuthorView>) -> bool {
    forall|i: int, j: int|
        0 <= i < j < authors.len() ==> (#[trigger] authors[i]).author_id != (
        #[trigger] authors[j]).author_id
}

/// The test that an author passes unless its id is `author_id`.
pub open spec fn is_other_author(author_id: AuthorId) -> spec_fn(AuthorView) -> bool {
    |author: AuthorView| author.author_id != author_id
}

/// The test that a link passes unless it names the author `author_id`.
pub open spec fn is_of_other_author(author_id: AuthorId) -> spec_fn(BookAuthor) -> bool {
    |link: BookAuthor| link.author_id != author_id
}

/// The change that gives the author `author_id` the name `name` and leaves
/// every other author as it is.
pub open spec fn renaming_author(author_id: AuthorId, name: Seq<char>) -> spec_fn(AuthorView)
    -> AuthorView {
    |author: AuthorView|
        if author.author_id == author_id {
            AuthorView { author_id, name }
        } else {
            author
        }
}

impl Tables {
    /// Some row of `authors` has the id `author_id`.
    pub open spec fn has_author(self, author_id: AuthorId) -> bool {
        has_author(self.authors, author_id)
    }

    /// No two rows of `authors` have the same id.
    pub open spec fn author_ids_differ(self) -> bool {
        author_ids_differ(self.authors)
    }

    /// The row of `authors` with the id `author_id`, if there is one.
    pub open spec fn find_author(self, author_id: AuthorId) -> Option<AuthorView> {
        if has_author(self.authors, author_id) {
            Some(self.authors[index_of_author(self.authors, author_id)])
        } else {
            None
        }
    }

    /// The tables with one more row at the end of `authors`.
    pub open spec fn with_author(self, author_id: AuthorId, name: Seq<char>) -> Tables {
        Tables { authors: self.authors.push(AuthorView { author_id, name }), ..self }
    }

    /// The tables in which the author `author_id`, if there is one, has the
    /// name `name`.
    pub open spec fn rename_author(self, author_id: AuthorId, name: Seq<char>) -> Tables {
        Tables { authors: self.authors.map_values(renaming_author(author_id, name)), ..self }
    }

    /// The tables without the author `author_id` and without the links that
    /// name it.
    pub open spec fn without_author(self, author_id: AuthorId) -> Tables {
        Tables {
            authors: self.authors.filter(is_other_author(author_id)),
            book_authors: self.book_authors.filter(is_of_other_author(author_id)),
            ..self
        }
    }
}

impl StoreState {
    /// The id that the next author gets.
    pub open spec fn next_author_id(self) -> int {
        self.last_author_id + 1
    }

    /// The storage after it has generated the next id for an author and
    /// inserted an author of that id and the name `name`.
    pub open spec fn with_new_author(self, name: Seq<char>) -> StoreState {
        StoreState {
            tables: self.tables.with_author(self.next_author_id() as AuthorId, name),
            last_author_id: self.next_author_id() as AuthorId,
            ..self
        }
    }

    /// The storage in which the author `author_id`, if there is one, has the
    /// name `name`.
    pub open spec fn rename_author(self, author_id: AuthorId, name: Seq<char>) -> StoreState {
        StoreState { tables: self.tables.rename_author(author_id, name), ..self }
    }

    /// The storage without the author `author_id` and without the links that
    /// name it.
    pub open spec fn without_author(self, author_id: AuthorId) -> StoreState {
        StoreState { tables: self.tables.without_author(author_id), ..self }
    }
}

/// Where ids differ, a row that has the id is the row that is found.
pub proof fn lemma_author_found(authors: Seq<AuthorView>, i: int, author_id: AuthorId)
    requires
        author_ids_differ(authors),
        author_at(authors, i, author_id),
    ensures
        has_author(authors, author_id),
        index_of_author(authors, author_id) == i,
{
    let j = index_of_author(authors, author_id);
    assert(author_at(authors, j, author_id));
    if i < j {
        assert(authors[i].author_id != authors[j].author_id);
    }
    if j < i {
        assert(authors[j].author_id != authors[i].author_id);
    }
}

/// A storage stays consistent when it inserts an author under the next id.
pub proof fn lemma_with_new_author_consistent(store: StoreState, name: Seq<char>)
    requires
        store.consistent(),
        store.last_author_id < i32::MAX,
    ensures
        store.with_new_author(name).consistent(),
{
    let after = store.with_new_author(name);
    let old_authors = store.tables.authors;
    let new_authors = after.tables.authors;
    assert forall|i: int, j: int| 0 <= i < j < new_authors.len() implies (
    #[trigger] new_authors[i]).author_id != (#[trigger] new_authors[j]).author_id by {
        assert(new_authors[i] == old_authors[i]);
        if j < old_authors.len() {
            assert(new_authors[j] == old_authors[j]);
        }
    }
    assert forall|k: int| 0 <= k < after.tables.book_authors.len() implies has_author(
        new_authors,
        (#[trigger] after.tables.book_authors[k]).author_id,
    ) by {
        let author_id = store.tables.book_authors[k].author_id;
        let i = index_of_author(old_authors, author_id);
        assert(author_at(old_authors, i, author_id));
        assert(author_at(new_authors, i, author_id));
    }
    assert forall|i: int| 0 <= i < new_authors.len() implies 1 <= (
    #[trigger] new_authors[i]).author_id <= after.last_author_id by {
        if i < old_authors.len() {
            assert(new_authors[i] == old_authors[i]);
        }
    }
}

/// A storage stays consistent when it renames an author.
pub proof fn lemma_rename_author_consistent(store: StoreState, author_id: AuthorId, name: Seq<char>)
    requires
        store.consistent(),
    ensures
        store.rename_author(author_id, name).consistent(),
{
    let after = store.rename_author(author_id, name);
    let old_authors = store.tables.authors;
    let new_authors = after.tables.authors;
    assert forall|i: int| 0 <= i < new_authors.len() implies (
    #[trigger] new_authors[i]).author_id == old_authors[i].author_id by {}
    assert forall|i: int, j: int| 0 <= i < j < new_authors.len() implies (
    #[trigger] new_authors[i]).author_id != (#[trigger] new_authors[j]).author_id by {
        assert(old_authors[i].author_id != old_authors[j].author_id);
    }
    assert forall|k: int| 0 <= k < after.tables.book_authors.len() implies has_author(
        new_authors,
        (#[trigger] after.tables.book_authors[k]).author_id,
    ) by {
        let linked = store.tables.book_authors[k].author_id;
        let i = index_of_author(old_authors, linked);
        assert(author_at(old_authors, i, linked));
        assert(author_at(new_authors, i, linked));
    }
    assert forall|i: int| 0 <= i < new_authors.len() implies 1 <= (
    #[trigger] new_authors[i]).author_id <= after.last_author_id by {
        assert(1 <= old_authors[i].author_id <= store.last_author_id);
    }
}

/// What the removal of an author leaves of `authors`: without a row of that id
/// the table is as it was; with one, that row is gone and the others keep
/// their order.
pub proof fn lemma_authors_without(authors: Seq<AuthorView>, author_id: AuthorId)
    requires
        author_ids_differ(authors),
    ensures
        !has_author(authors, author_id) ==> authors.filter(is_other_author(author_id)) == authors,
        has_author(authors, author_id) ==> authors.filter(is_other_author(author_id))
            == authors.remove(index_of_author(authors, author_id)),
{
    let keep = is_other_author(author_id);
    if has_author(authors, author_id) {
        let i = index_of_author(authors, author_id);
        assert(author_at(authors, i, author_id));
        assert forall|j: int| 0 <= j < authors.len() && j != i implies keep(
            #[trigger] authors[j],
        ) by {
            if j < i {
                assert(authors[j].author_id != authors[i].author_id);
            } else {
                assert(authors[i].author_id != authors[j].author_id);
            }
        }
        lemma_filter_drops_one(authors, keep, i);
    } else {
        assert forall|j: int| 0 <= j < authors.len() implies keep(#[trigger] authors[j]) by {
            assert(!author_at(authors, j, author_id));
        }
        lemma_filter_keeps_all(authors, keep);
    }
}

/// A storage stays consistent when it removes an author and the links that
/// name it.
pub proof fn lemma_without_author_consistent(store: StoreState, author_id: AuthorId)
    requires
        store.consistent(),
    ensures
        store.without_author(author_id).consistent(),
{
    let after = store.without_author(author_id);
    let old_authors = store.tables.authors;
    let new_authors = after.tables.authors;
    let old_links = store.tables.book_authors;
    let new_links = after.tables.book_authors;
    lemma_authors_without(old_authors, author_id);
    lemma_filter_no_duplicates(old_links, is_of_other_author(author_id));
    // Every row that is left was there before, and no other row of its id.
    assert forall|i: int| 0 <= i < new_authors.len() implies exists|m: int|
        0 <= m < old_authors.len() && old_authors[m] == #[trigger] new_authors[i] by {
        if has_author(old_authors, author_id) {
            let gone = index_of_author(old_authors, author_id);
            assert(author_at(old_authors, gone, author_id));
            if i < gone {
                assert(old_authors[i] == new_authors[i]);
            } else {
                assert(old_authors[i + 1] == new_authors[i]);
            }
        } else {
            assert(old_authors[i] == new_authors[i]);
        }
    }
    assert forall|i: int, j: int| 0 <= i < j < new_authors.len() implies (
    #[trigger] new_authors[i]).author_id != (#[trigger] new_authors[j]).author_id by {
        if has_author(old_authors, author_id) {
            let gone = index_of_author(old_authors, author_id);
            assert(author_at(old_authors, gone, author_id));
            let m = if i < gone { i } else { i + 1 };
            let n = if j < gone { j } else { j + 1 };
            assert(old_authors[m].author_id != old_authors[n].author_id);
        } else {
            assert(old_authors[i].author_id != old_authors[j].author_id);
        }
    }
    assert forall|i: int| 0 <= i < new_authors.len() implies 1 <= (
    #[trigger] new_authors[i]).author_id <= after.last_author_id by {
        let m = choose|m: int| 0 <= m < old_authors.len() && old_authors[m] == new_authors[i];
        assert(1 <= old_authors[m].author_id <= store.last_author_id);
    }
    assert forall|k: int| 0 <= k < new_links.len() implies {
        &&& has_author(new_authors, (#[trigger] new_links[k]).author_id)
        &&& after.tables.has_book(new_links[k].book_id)
    } by {
        lemma_filter_member(old_links, is_of_other_author(author_id), k);
        let n = choose|n: int| 0 <= n < old_links.len() && old_links[n] == new_links[k];
        let linked = old_links[n].author_id;
        assert(linked != author_id);
        let at = index_of_author(old_authors, linked);
        assert(author_at(old_authors, at, linked));
        if has_author(old_authors, author_id) {
            let gone = index_of_author(old_authors, author_id);
            assert(author_at(old_authors, gone, author_id));
            if at < gone {
                assert(author_at(new_authors, at, linked));
            } else {
                assert(author_at(new_authors, at - 1, linked));
            }
        } else {
            assert(author_at(new_authors, at, linked));
        }
    }
}

/// The position of the author `author_id` in the storage, if it holds one.
pub(crate) fn position_of_author(store: &Store, author_id: AuthorId) -> (position: Option<usize>)
    requires
        store@.consistent(),
    ensures
        match position {
            Some(i) => author_at(store@.tables.authors, i as int, author_id) && i
                == index_of_author(store@.tables.authors, author_id),
            None => !has_author(store@.tables.authors, author_id),
        },
{
    let mut i: usize = 0;
    while i < store.authors.len()
        invariant
            store@.consistent(),
            i <= store.authors.len(),
            forall|j: int| 0 <= j < i ==> !author_at(store@.tables.authors, j, author_id),
        decreases store.authors.len() - i,
    {
        if store.authors[i].author_id == author_id {
            proof {
                assert(author_at(store@.tables.authors, i as int, author_id));
                lemma_author_found(store@.tables.authors, i as int, author_id);
            }
            return Some(i);
        }
        i += 1;
    }
    None
}

/// Inserts an author named `name` and returns the id that the storage
/// generated for it: the one after the last id generated for an author.
///
/// Fails, and changes nothing, when no id is left.
pub fn create_author(store: &mut Store, name: &str) -> (created: Result<AuthorId, StorageError>)
    requires
        old(store)@.consistent(),
    ensures
        final(store)@.consistent(),
        match created {
            Ok(author_id) => {
                &&& old(store)@.last_author_id < i32::MAX
                &&& author_id == old(store)@.next_author_id()
                &&& final(store)@ == old(store)@.with_new_author(name@)
            },
            Err(error) => {
                &&& old(store)@.last_author_id == i32::MAX
                &&& final(store)@ == old(store)@
                &&& error@ == NO_AUTHOR_ID_LEFT@
            },
        },
{
    if store.last_author_id == i32::MAX {
        return Err(StorageError { message: NO_AUTHOR_ID_LEFT.to_owned() });
    }
    let author_id = store.last_author_id + 1;
    store.last_author_id = author_id;
    store.authors.push(Author { author_id, name: name.to_owned() });
    proof {
        let after = old(store)@.with_new_author(name@);
        assert(store@.tables.authors =~= after.tables.authors);
        lemma_with_new_author_consistent(old(store)@, name@);
    }
    Ok(author_id)
}

/// The author with the id `author_id`, or `None` where the storage holds no
/// such author.
pub fn get_author_by_id(store: &Store, author_id: AuthorId) -> (found: Option<Author>)
    requires
        store@.consistent(),
    ensures
        match found {
            Some(author) => store@.tables.find_author(author_id) == Some(author@),
            None => store@.tables.find_author(author_id) is None,
        },
{
    match position_of_author(store, author_id) {
        Some(i) => {
            let author = &store.authors[i];
            Some(Author { author_id: author.author_id, name: author.name.clone() })
        },
        None => None,
    }
}

/// Every author, in the order of insertion.
pub fn get_all_authors(store: &Store) -> (authors: Vec<Author>)
    ensures
        author_views(authors@) == store@.tables.authors,
{
    let mut authors: Vec<Author> = Vec::new();
    let mut i: usize = 0;
    while i < store.authors.len()
        invariant
            i <= store.authors.len(),
            authors.len() == i,
            forall|j: int| 0 <= j < i ==> authors[j]@ == store.authors[j]@,
        decreases store.authors.len() - i,
    {
        let author = &store.authors[i];
        authors.push(Author { author_id: author.author_id, name: author.name.clone() });
        i += 1;
    }
    assert(author_views(authors@) =~= store@.tables.authors);
    authors
}

/// Gives the author `author_id` the name `name`. Where the storage holds no
/// such author, nothing changes.
pub fn update_author(store: &mut Store, author_id: AuthorId, name: &str)
    requires
        old(store)@.consistent(),
    ensures
        final(store)@.consistent(),
        final(store)@ == old(store)@.rename_author(author_id, name@),
{
    let position = position_of_author(store, author_id);
    match position {
        Some(i) => {
            store.authors.set(i, Author { author_id, name: name.to_owned() });
            proof {
                let before = old(store)@.tables.authors;
                let after = before.map_values(renaming_author(author_id, name@));
                assert forall|j: int| 0 <= j < before.len() implies store@.tables.authors[j]
                    == after[j] by {
                    if j != i {
                        if j < i {
                            assert(before[j].author_id != before[i as int].author_id);
                        } else {
                            assert(before[i as int].author_id != before[j].author_id);
                        }
                    }
                }
                assert(store@.tables.authors =~= after);
            }
        },
        None => {
            proof {
                let before = old(store)@.tables.authors;
                let after = before.map_values(renaming_author(author_id, name@));
                assert forall|j: int| 0 <= j < before.len() implies before[j] == after[j] by {
                    assert(!author_at(before, j, author_id));
                }
                assert(before =~= after);
            }
        },
    }
    proof {
        lemma_rename_author_consistent(old(store)@, author_id, name@);
    }
}

/// Removes the author `author_id`, and with it the links that name it, so that
/// every link that is left names an author that exists. Where the storage
/// holds no such author, nothing changes.
pub fn delete_author(store: &mut Store, author_id: AuthorId)
    requires
        old(store)@.consistent(),
    ensures
        final(store)@.consistent(),
        final(store)@ == old(store)@.without_author(author_id),
{
    let position = position_of_author(store, author_id);
    let ghost keep = is_of_other_author(author_id);
    let mut kept: Vec<BookAuthor> = Vec::new();
    let mut k: usize = 0;
    while k < store.book_authors.len()
        invariant
            k <= store.book_authors.len(),
            keep == is_of_other_author(author_id),
            kept@ == store.book_authors@.take(k as int).filter(keep),
        decreases store.book_authors.len() - k,
    {
        let link = store.book_authors[k];
        proof {
            lemma_filter_push(store.book_authors@.take(k as int), link, keep);
            assert(store.book_authors@.take(k as int).push(link) =~= store.book_authors@.take(
                k + 1,
            ));
        }
        if link.author_id != author_id {
            kept.push(link);
        }
        k += 1;
    }
    proof {
        assert(store.book_authors@.take(k as int) =~= store.book_authors@);
        lemma_authors_without(old(store)@.tables.authors, author_id);
    }
    store.book_authors = kept;
    match position {
        Some(i) => {
            store.authors.remove(i);
            assert(store@.tables.authors =~= old(store)@.tables.authors.remove(i as int));
        },
        None => {},
    }
    proof {
        assert(store@.tables.authors =~= old(store)@.without_author(author_id).tables.authors);
        lemma_without_author_consistent(old(store)@, author_id);
    }
}

/// An author that was created is found under the id that its creation
/// returned, with that id and with the name that was given.
pub proof fn lemma_created_author_is_found(store: StoreState, name: Seq<char>)
    requires
        store.consistent(),
        store.last_author_id < i32::MAX,
    ensures
        store.with_new_author(name).tables.find_author(store.next_author_id() as AuthorId) == Some(
            AuthorView { author_id: store.next_author_id() as AuthorId, name },
        ),
{
    let after = store.with_new_author(name);
    lemma_with_new_author_consistent(store, name);
    let i = store.tables.authors.len() as int;
    assert(author_at(after.tables.authors, i, store.next_author_id() as AuthorId));
    lemma_author_found(after.tables.authors, i, store.next_author_id() as AuthorId);
}

/// The creation of an author leaves every other author as it was.
pub proof fn lemma_created_author_is_new(store: StoreState, name: Seq<char>, other: AuthorId)
    requires
        store.consistent(),
        store.last_author_id < i32::MAX,
        other != store.next_author_id(),
    ensures
        !store.tables.has_author(store.next_author_id() as AuthorId),
        store.with_new_author(name).tables.find_author(other) == store.tables.find_author(other),
{
    let before = store.tables.authors;
    let after = store.with_new_author(name).tables.authors;
    lemma_with_new_author_consistent(store, name);
    lemma_author_is_absent(store, store.next_author_id() as AuthorId);
    if has_author(before, other) {
        let i = index_of_author(before, other);
        assert(author_at(before, i, other));
        assert(author_at(after, i, other));
        lemma_author_found(after, i, other);
    } else {
        if has_author(after, other) {
            let i = index_of_author(after, other);
            assert(author_at(after, i, other));
            assert(author_at(before, i, other));
        }
    }
}

/// An id that was never generated names no author: no author is found under
/// an id below 1 or beyond the last id that was generated.
pub proof fn lemma_author_is_absent(store: StoreState, author_id: AuthorId)
    requires
        store.consistent(),
        author_id < 1 || author_id > store.last_author_id,
    ensures
        store.tables.find_author(author_id) is None,
{
    if has_author(store.tables.authors, author_id) {
        let i = index_of_author(store.tables.authors, author_id);
        assert(author_at(store.tables.authors, i, author_id));
        assert(1 <= store.tables.authors[i].author_id <= store.last_author_id);
    }
}

/// Where the storage holds no author of the id, deleting it changes nothing,
/// and so does renaming it.
pub proof fn lemma_absent_author_changes_nothing(
    store: StoreState,
    author_id: AuthorId,
    name: Seq<char>,
)
    requires
        store.consistent(),
        !store.tables.has_author(author_id),
    ensures
        store.without_author(author_id) == store,
        store.rename_author(author_id, name) == store,
{
    let authors = store.tables.authors;
    let links = store.tables.book_authors;
    lemma_authors_without(authors, author_id);
    assert forall|k: int| 0 <= k < links.len() implies is_of_other_author(author_id)(
        #[trigger] links[k],
    ) by {
        assert(has_author(authors, links[k].author_id));
    }
    lemma_filter_keeps_all(links, is_of_other_author(author_id));
    let renamed = authors.map_values(renaming_author(author_id, name));
    assert forall|i: int| 0 <= i < authors.len() implies authors[i] == #[trigger] renamed[i] by {
        assert(!author_at(authors, i, author_id));
    }
    assert(renamed =~= authors);
}

/// An author that was renamed is found under its id, with that id and with
/// the new name, and every other author is as it was.
pub proof fn lemma_renamed_author_is_found(
    store: StoreState,
    author_id: AuthorId,
    name: Seq<char>,
    other: AuthorId,
)
    requires
        store.consistent(),
        store.tables.has_author(author_id),
        other != author_id,
    ensures
        store.rename_author(author_id, name).tables.find_author(author_id) == Some(
            AuthorView { author_id, name },
        ),
        store.rename_author(author_id, name).tables.find_author(other)
            == store.tables.find_author(other),
        store.rename_author(author_id, name).tables.authors.len() == store.tables.authors.len(),
{
    let before = store.tables.authors;
    let after = store.rename_author(author_id, name).tables.authors;
    lemma_rename_author_consistent(store, author_id, name);
    let i = index_of_author(before, author_id);
    assert(author_at(before, i, author_id));
    assert(author_at(after, i, author_id));
    lemma_author_found(after, i, author_id);
    if has_author(before, other) {
        let j = index_of_author(before, other);
        assert(author_at(before, j, other));
        assert(author_at(after, j, other));
        lemma_author_found(after, j, other);
    } else {
        if has_author(after, other) {
            let j = index_of_author(after, other);
            assert(author_at(after, j, other));
            assert(author_at(before, j, other));
        }
    }
}

/// An author that was deleted is found no more, the table has one row less,
/// and every other author is as it was.
pub proof fn lemma_deleted_author_is_gone(store: StoreState, author_id: AuthorId, other: AuthorId)
    requires
        store.consistent(),
        store.tables.has_author(author_id),
        other != author_id,
    ensures
        store.without_author(author_id).tables.find_author(author_id) is None,
        store.without_author(author_id).tables.authors.len() == store.tables.authors.len() - 1,
        store.without_author(author_id).tables.find_author(other)
            == store.tables.find_author(other),
{
    let before = store.tables.authors;
    let after = store.without_author(author_id).tables.authors;
    lemma_authors_without(before, author_id);
    lemma_without_author_consistent(store, author_id);
    let gone = index_of_author(before, author_id);
    assert(author_at(before, gone, author_id));
    if has_author(after, author_id) {
        let i = index_of_author(after, author_id);
        assert(author_at(after, i, author_id));
        if i < gone {
            assert(before[i].author_id != before[gone].author_id);
        } else {
            assert(before[gone].author_id != before[i + 1].author_id);
        }
    }
    if has_author(before, other) {
        let j = index_of_author(before, other);
        assert(author_at(before, j, other));
        let moved = if j < gone { j } else { j - 1 };
        assert(author_at(after, moved, other));
        lemma_author_found(after, moved, other);
    } else {
        if has_author(after, other) {
            let j = index_of_author(after, other);
            assert(author_at(after, j, other));
            let origin = if j < gone { j } else { j + 1 };
            assert(author_at(before, origin, other));
        }
    }
}

/// The test that a joined row passes if its author is `author_id`.
pub open spec fn is_of_author(author_id: AuthorId) -> spec_fn(BookAuthorRowView) -> bool {
    |row: BookAuthorRowView| row.author_id == author_id
}

/// The book of a joined row.
pub open spec fn book_of_row() -> spec_fn(BookAuthorRowView) -> BookView {
    |row: BookAuthorRowView| row.book()
}

/// The rows of a join that belong to the author `author_id`, in their order.
pub open spec fn rows_of_author(rows: Seq<BookAuthorRowView>, author_id: AuthorId) -> Seq<
    BookAuthorRowView,
> {
    rows.filter(is_of_author(author_id))
}

/// The author `author_id` with its books, as the rows of a join give them:
/// the name that the first of its rows has, and the book of each of its
/// rows, in the order of the rows. A row that occurs twice gives its book
/// twice.
pub open spec fn author_with_books(rows: Seq<BookAuthorRowView>, author_id: AuthorId)
    -> AuthorWithBooksView {
    let own = rows_of_author(rows, author_id);
    AuthorWithBooksView {
        author_id,
        name: own[0].author_name,
        books: own.map_values(book_of_row()),
    }
}

/// The authors that the rows of a join hold, each with its books. An author
/// without a row is not among them.
pub open spec fn authors_with_books(rows: Seq<BookAuthorRowView>) -> Map<
    AuthorId,
    AuthorWithBooksView,
> {
    Map::new(
        |author_id: AuthorId| rows_of_author(rows, author_id).len() > 0,
        |author_id: AuthorId| author_with_books(rows, author_id),
    )
}

/// The mathematical value of each author of a map.
pub open spec fn authors_view(authors: Map<AuthorId, AuthorWithBooks>) -> Map<
    AuthorId,
    AuthorWithBooksView,
> {
    authors.map_values(|author: AuthorWithBooks| author@)
}

/// What one more row at the end of a join makes of an author with its books.
proof fn lemma_author_with_books_push(
    rows: Seq<BookAuthorRowView>,
    row: BookAuthorRowView,
    author_id: AuthorId,
)
    ensures
        ({
            let own = rows_of_author(rows, author_id);
            let grown = rows_of_author(rows.push(row), author_id);
            let before = author_with_books(rows, author_id);
            let after = author_with_books(rows.push(row), author_id);
            &&& author_id != row.author_id ==> grown == own
            &&& author_id == row.author_id ==> grown == own.push(row)
            &&& author_id == row.author_id && own.len() == 0 ==> after == (AuthorWithBooksView {
                author_id,
                name: row.author_name,
                books: seq![row.book()],
            })
            &&& author_id == row.author_id && own.len() > 0 ==> after == (AuthorWithBooksView {
                books: before.books.push(row.book()),
                ..before
            })
        }),
{
    lemma_filter_push(rows, row, is_of_author(author_id));
    if author_id == row.author_id {
        let own = rows_of_author(rows, author_id);
        let grown = rows_of_author(rows.push(row), author_id);
        assert(grown == own.push(row));
        assert(grown.map_values(book_of_row()) =~= own.map_values(book_of_row()).push(
            row.book(),
        ));
        if own.len() == 0 {
            assert(grown.map_values(book_of_row()) =~= seq![row.book()]);
        }
    }
}

/// Gathers the rows of a join by author: each author that has a row, with the
/// books of its rows in the order of the rows.
pub fn group_by_author(rows: Vec<BookAuthorRow>) -> (authors: Authors)
    ensures
        authors_view(authors@) == authors_with_books(row_views(rows@)),
{
    broadcast use vstd::std_specs::hash::group_hash_axioms;

    let ghost all = row_views(rows@);
    let ghost mut seen = all.take(0);
    let mut authors = Authors::new();
    proof {
        reveal(Seq::filter);
        assert(seen =~= Seq::empty());
    }
    for row in it: rows
        invariant
            it.seq() == rows@,
            all == row_views(rows@),
            seen == all.take(it.index()),
            forall|author_id: AuthorId|
                authors@.contains_key(author_id) <==> rows_of_author(seen, author_id).len() > 0,
            forall|author_id: AuthorId|
                authors@.contains_key(author_id) ==> (#[trigger] authors@[author_id])@
                    == author_with_books(seen, author_id),
    {
        let ghost before = authors@;
        let ghost joined = row@;
        let ghost grown = seen.push(joined);
        proof {
            assert(grown =~= all.take(it.index() + 1));
            assert forall|author_id: AuthorId| author_id != joined.author_id implies (
            #[trigger] rows_of_author(grown, author_id)) == rows_of_author(seen, author_id) by {
                lemma_author_with_books_push(seen, joined, author_id);
            }
            lemma_author_with_books_push(seen, joined, joined.author_id);
        }
        let author = authors.entry(row.author_id).or_insert(
            AuthorWithBooks { books: vec![], author_id: row.author_id, name: row.author_name },
        );
        let ghost found = *author;
        let book = Book { book_id: row.book_id, name: row.book_name };
        author.books.push(book);
        proof {
            let key = joined.author_id;
            assert(authors@ == before.insert(key, authors@[key]));
            assert(authors@[key].books@ == found.books@.push(book));
            assert(book_views(authors@[key].books@) =~= book_views(found.books@).push(
                book@,
            ));
            if before.contains_key(key) {
                assert(found == before[key]);
            } else {
                assert(book_views(found.books@) =~= Seq::empty());
                assert(book_views(authors@[key].books@) =~= seq![book@]);
            }
            assert(authors@[key]@ == author_with_books(grown, key));
            assert forall|author_id: AuthorId| authors@.contains_key(author_id) implies (
            #[trigger] authors@[author_id])@ == author_with_books(grown, author_id) by {
                if author_id != key {
                    assert(before.contains_key(author_id));
                    assert(rows_of_author(grown, author_id) == rows_of_author(seen, author_id));
                }
            }
            assert forall|author_id: AuthorId| authors@.contains_key(author_id) <==> rows_of_author(
                grown,
                author_id,
            ).len() > 0 by {
                if author_id != key {
                    assert(rows_of_author(grown, author_id) == rows_of_author(seen, author_id));
                }
            }
            seen = grown;
        }
    }
    proof {
        assert(seen =~= all);
        assert(authors_view(authors@) =~= authors_with_books(all));
    }
    authors
}

/// What the join of consistent tables gives for an author.
///
/// - The author is among the authors with books if and only if a link names
///   it: an author without a link does not appear.
/// - It appears under its id, with the name that it has in `authors`.
/// - Each of its books is named by a link of the author, and is the book
///   that `books` holds under that id.
pub proof fn lemma_author_with_books_of_tables(tables: Tables, author_id: AuthorId)
    requires
        tables.consistent(),
    ensures
        authors_with_books(tables.joined()).contains_key(author_id) <==> exists|k: int|
            0 <= k < tables.book_authors.len() && (#[trigger] tables.book_authors[k]).author_id
                == author_id,
        authors_with_books(tables.joined()).contains_key(author_id) ==> {
            let author = authors_with_books(tables.joined())[author_id];
            &&& author.author_id == author_id
            &&& tables.find_author(author_id) == Some(AuthorView { author_id, name: author.name })
            &&& forall|n: int|
                0 <= n < author.books.len() ==> {
                    &&& tables.find_book((#[trigger] author.books[n]).book_id) == Some(
                        author.books[n],
                    )
                    &&& exists|k: int|
                        0 <= k < tables.book_authors.len() && #[trigger] tables.book_authors[k]
                            == (BookAuthor { author_id, book_id: author.books[n].book_id })
                }
        },
{
    let links = tables.book_authors;
    let rows = tables.joined();
    let own = rows_of_author(rows, author_id);
    if exists|k: int| 0 <= k < links.len() && (#[trigger] links[k]).author_id == author_id {
        let k = choose|k: int| 0 <= k < links.len() && (#[trigger] links[k]).author_id == author_id;
        assert(is_of_author(author_id)(rows[k]));
        rows.lemma_filter_contains(is_of_author(author_id), k);
    }
    if own.len() > 0 {
        lemma_filter_member(rows, is_of_author(author_id), 0);
        let first = choose|i: int| 0 <= i < rows.len() && rows[i] == own[0];
        assert(links[first].author_id == author_id);
        assert(has_author(tables.authors, links[first].author_id));
        let author = author_with_books(rows, author_id);
        assert forall|n: int| 0 <= n < author.books.len() implies {
            &&& tables.find_book((#[trigger] author.books[n]).book_id) == Some(
                author.books[n],
            )
            &&& exists|k: int|
                0 <= k < links.len() && #[trigger] links[k] == (BookAuthor {
                    author_id,
                    book_id: author.books[n].book_id,
                })
        } by {
            lemma_filter_member(rows, is_of_author(author_id), n);
            let k = choose|k: int| 0 <= k < rows.len() && rows[k] == own[n];
            assert(links[k].author_id == author_id);
            let book_id = links[k].book_id;
            assert(has_book(tables.books, links[k].book_id));
            let at = index_of_book(tables.books, book_id);
            assert(book_at(tables.books, at, book_id));
            assert(links[k] == (BookAuthor { author_id, book_id }));
        }
    }
}

/// Every author that has a book, with its books: the rows of the join
/// of the three tables, gathered by author.
pub fn get_all_authors_with_books(store: &Store) -> (authors: Authors)
    requires
        store@.consistent(),
    ensures
        authors_view(authors@) == authors_with_books(store@.tables.joined()),
{
    group_by_author(store.joined())
}

/// Creates an author named `author_name`, a book named `book_name` and the
/// link between the two, all three or none, and returns the id of the
/// author and the id of the book.
///
/// The author is inserted first, then the book, then the link. Where no id
/// is left for one of the two, no row is kept and the error names the
/// insertion that failed.
pub fn create_author_and_book(store: &mut Store, author_name: &str, book_name: &str) -> (created:
    Result<(AuthorId, BookId), TransactionError>)
    requires
        old(store)@.consistent(),
    ensures
        final(store)@.consistent(),
        final(store)@ == old(store)@.paired(Order::AuthorFirst, book_name@, author_name@).0,
        match created {
            Ok(ids) => old(store)@.paired(Order::AuthorFirst, book_name@, author_name@).1 == Ok::<
                (BookId, AuthorId),
                TransactionErrorView,
            >((ids.1, ids.0)),
            Err(error) => old(store)@.paired(Order::AuthorFirst, book_name@, author_name@).1
                == Err::<(BookId, AuthorId), TransactionErrorView>(error@),
        },
{
    match pair(store, Order::AuthorFirst, book_name, author_name) {
        Ok((book_id, author_id)) => Ok((author_id, book_id)),
        Err(error) => Err(error),
    }
}

} // verus!
