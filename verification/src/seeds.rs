//! The fixture: six books, six authors and the links between them, loaded
//! in one transaction.
//!
//! A [`Seeding`] says which statement comes next, as a
//! [`Pairing`](crate::transaction::Pairing) does for the creation of one
//! linked book and author. [`run`] loads the fixture into the storage in
//! memory.

use crate::authors::{create_author, NO_AUTHOR_ID_LEFT};
use crate::books::{create_book, NO_BOOK_ID_LEFT};
use crate::error::StorageError;
use crate::store::{lemma_with_link_consistent, BookAuthor, Marks, Store, StoreState};
use vstd::prelude::*;

verus! {

/// The tables that the fixture fills, in the order in which it fills them.
#[derive(Debug, Clone, Copy, PartialEq, Eq, Structural)]
pub enum Table {
    Books,
    Authors,
    BookAuthors,
}

/// A statement for the storage.
#[derive(Debug, Clone, Copy, PartialEq, Eq, Structural)]
pub enum Statement {
    /// Start a transaction.
    Begin,
    /// Insert the fixture's rows of one table.
    Fill(Table),
    /// Make the rows of the transaction durable.
    Commit,
    /// Undo the insertions of the transaction.
    Rollback,
}

/// The state of the transaction that loads the fixture: which statement is
/// under way, and whether every table so far was filled.
#[derive(Debug, Clone, Copy, PartialEq, Eq, Structural)]
pub enum Seeding {
    /// `Begin` is under way.
    Beginning,
    /// `Fill(table)` is under way; `is_success` says whether every table
    /// before it was filled.
    Filling { table: Table, is_success: bool },
    /// `Commit` is under way.
    Committing,
    /// `Rollback` is under way.
    RollingBack,
}

/// What a [`Seeding`] asks for once it has been told how a statement went.
#[derive(Debug, PartialEq, Eq)]
pub enum Progress {
    /// The transaction goes on: carry out the statement and report back to
    /// the new state.
    Next(Seeding, Statement),
    /// The transaction is over.
    Finished(Result<(), StorageError>),
}

/// Mathematical value of a [`Progress`].
pub enum ProgressView {
    Next(Seeding, Statement),
    Finished(Result<(), Seq<char>>),
}

impl View for Progress {
    type V = ProgressView;

    open spec fn view(&self) -> ProgressView {
        match self {
            Progress::Next(seeding, statement) => ProgressView::Next(*seeding, *statement),
            Progress::Finished(Ok(_)) => ProgressView::Finished(Ok(())),
            Progress::Finished(Err(e)) => ProgressView::Finished(Err(e@)),
        }
    }
}

/// Mathematical value of the answer to a statement: that it was carried
/// out, or the storage's words on its failure.
pub open spec fn outcome_view(outcome: Result<(), StorageError>) -> Result<(), Seq<char>> {
    match outcome {
        Ok(_) => Ok(()),
        Err(e) => Err(e@),
    }
}

impl Seeding {
    /// The transaction's rules: the state and the statement that follow
    /// when the statement under way was answered by `outcome`, or the
    /// result with which the transaction is over.
    ///
    /// - The transaction is begun first. If that fails, nothing else is
    ///   attempted and the failure is the result.
    /// - The three tables are filled in their order, each whether or not
    ///   the one before it was filled.
    /// - If all three were filled the transaction is committed, else it is
    ///   rolled back. Either way the result is the one of that last
    ///   statement: a rollback that completed is no failure.
    pub open spec fn after(self, outcome: Result<(), Seq<char>>) -> ProgressView {
        match self {
            Seeding::Beginning => match outcome {
                Err(e) => ProgressView::Finished(Err(e)),
                Ok(_) => ProgressView::Next(
                    Seeding::Filling { table: Table::Books, is_success: true },
                    Statement::Fill(Table::Books),
                ),
            },
            Seeding::Filling { table: Table::Books, is_success } => ProgressView::Next(
                Seeding::Filling {
                    table: Table::Authors,
                    is_success: is_success && outcome is Ok,
                },
                Statement::Fill(Table::Authors),
            ),
            Seeding::Filling { table: Table::Authors, is_success } => ProgressView::Next(
                Seeding::Filling {
                    table: Table::BookAuthors,
                    is_success: is_success && outcome is Ok,
                },
                Statement::Fill(Table::BookAuthors),
            ),
            Seeding::Filling { table: Table::BookAuthors, is_success } => if is_success
                && outcome is Ok {
                ProgressView::Next(Seeding::Committing, Statement::Commit)
            } else {
                ProgressView::Next(Seeding::RollingBack, Statement::Rollback)
            },
            Seeding::Committing => ProgressView::Finished(outcome),
            Seeding::RollingBack => ProgressView::Finished(outcome),
        }
    }

    /// The transaction that loads the fixture, with the statement to begin
    /// with.
    pub fn start() -> (first: (Seeding, Statement))
        ensures
            first == (Seeding::Beginning, Statement::Begin),
    {
        (Seeding::Beginning, Statement::Begin)
    }

    /// Takes the answer to the statement under way and tells what follows.
    pub fn step(self, outcome: Result<(), StorageError>) -> (progress: Progress)
        ensures
            progress@ == self.after(outcome_view(outcome)),
    {
        match self {
            Seeding::Beginning => match outcome {
                Err(e) => Progress::Finished(Err(e)),
                Ok(_) => Progress::Next(
                    Seeding::Filling { table: Table::Books, is_success: true },
                    Statement::Fill(Table::Books),
                ),
            },
            Seeding::Filling { table, is_success } => {
                let is_success = is_success && outcome.is_ok();
                match table {
                    Table::Books => Progress::Next(
                        Seeding::Filling { table: Table::Authors, is_success },
                        Statement::Fill(Table::Authors),
                    ),
                    Table::Authors => Progress::Next(
                        Seeding::Filling { table: Table::BookAuthors, is_success },
                        Statement::Fill(Table::BookAuthors),
                    ),
                    Table::BookAuthors => if is_success {
                        Progress::Next(Seeding::Committing, Statement::Commit)
                    } else {
                        Progress::Next(Seeding::RollingBack, Statement::Rollback)
                    },
                }
            },
            Seeding::Committing => Progress::Finished(outcome),
            Seeding::RollingBack => Progress::Finished(outcome),
        }
    }
}

/// The last statement of the transaction that loads the fixture is a
/// commit if all three tables were filled, and a rollback if one was not,
/// whichever it was: the tables that come after a failure are still
/// attempted, and none of them turns the rollback into a commit.
pub proof fn lemma_commits_only_what_was_filled(
    books: Result<(), Seq<char>>,
    authors: Result<(), Seq<char>>,
    book_authors: Result<(), Seq<char>>,
)
    ensures
        ({
            let begun = Seeding::Beginning.after(Ok(()));
            let filled_books = begun->Next_0.after(books);
            let filled_authors = filled_books->Next_0.after(authors);
            let filled_all = filled_authors->Next_0.after(book_authors);
            &&& begun is Next && begun->Next_1 == Statement::Fill(Table::Books)
            &&& filled_books is Next && filled_books->Next_1 == Statement::Fill(Table::Authors)
            &&& filled_authors is Next && filled_authors->Next_1 == Statement::Fill(
                Table::BookAuthors,
            )
            &&& filled_all is Next
            &&& filled_all->Next_1 == if books is Ok && authors is Ok && book_authors is Ok {
                Statement::Commit
            } else {
                Statement::Rollback
            }
        }),
{
}

/// The names of the fixture's books, in the order of their insertion.
pub open spec fn fixture_books() -> Seq<Seq<char>> {
    seq![
        "Brave New World"@,
        "Moby Dick"@,
        "Omoo"@,
        "Rip Van Winkle"@,
        "The Raven and Other Poems"@,
        "Mastering the Art of Programming: A Comprehensive Guide for Beginners"@,
    ]
}

/// The names of the fixture's authors, in the order of their insertion.
pub open spec fn fixture_authors() -> Seq<Seq<char>> {
    seq![
        "Aldous Huxley"@,
        "Herman Melville"@,
        "Washington Irving"@,
        "Edgar Allan Poe"@,
        "Alistair Thompson"@,
        "Emily Sinclair"@,
    ]
}

/// The fixture's links, by the ids that a storage which has generated no
/// id before gives to the fixture's books and authors.
pub open spec fn fixture_book_authors() -> Seq<BookAuthor> {
    seq![
        BookAuthor { book_id: 1, author_id: 1 },
        BookAuthor { book_id: 2, author_id: 2 },
        BookAuthor { book_id: 3, author_id: 2 },
        BookAuthor { book_id: 4, author_id: 3 },
        BookAuthor { book_id: 5, author_id: 4 },
        BookAuthor { book_id: 6, author_id: 5 },
        BookAuthor { book_id: 6, author_id: 6 },
    ]
}

/// The names that a vector of names stands for.
pub open spec fn names_view(names: Seq<&'static str>) -> Seq<Seq<char>> {
    Seq::new(names.len(), |i: int| names[i]@)
}

/// The names of the fixture's books.
pub fn book_names() -> (names: Vec<&'static str>)
    ensures
        names_view(names@) == fixture_books(),
{
    let names = vec![
        "Brave New World",
        "Moby Dick",
        "Omoo",
        "Rip Van Winkle",
        "The Raven and Other Poems",
        "Mastering the Art of Programming: A Comprehensive Guide for Beginners",
    ];
    names
}

/// The names of the fixture's authors.
pub fn author_names() -> (names: Vec<&'static str>)
    ensures
        names_view(names@) == fixture_authors(),
{
    let names = vec![
        "Aldous Huxley",
        "Herman Melville",
        "Washington Irving",
        "Edgar Allan Poe",
        "Alistair Thompson",
        "Emily Sinclair",
    ];
    names
}

/// The fixture's links.
pub fn book_authors() -> (links: Vec<BookAuthor>)
    ensures
        links@ == fixture_book_authors(),
{
    let links = vec![
        BookAuthor { book_id: 1, author_id: 1 },
        BookAuthor { book_id: 2, author_id: 2 },
        BookAuthor { book_id: 3, author_id: 2 },
        BookAuthor { book_id: 4, author_id: 3 },
        BookAuthor { book_id: 5, author_id: 4 },
        BookAuthor { book_id: 6, author_id: 5 },
        BookAuthor { book_id: 6, author_id: 6 },
    ];
    links
}

impl StoreState {
    /// The storage after it has inserted a book for each of `names`, in
    /// their order, under the next ids.
    pub open spec fn with_new_books(self, names: Seq<Seq<char>>) -> StoreState
        decreases names.len(),
    {
        if names.len() == 0 {
            self
        } else {
            self.with_new_books(names.drop_last()).with_new_book(names.last())
        }
    }

    /// The storage after it has inserted an author for each of `names`, in
    /// their order, under the next ids.
    pub open spec fn with_new_authors(self, names: Seq<Seq<char>>) -> StoreState
        decreases names.len(),
    {
        if names.len() == 0 {
            self
        } else {
            self.with_new_authors(names.drop_last()).with_new_author(names.last())
        }
    }

    /// The storage after it has taken `links` one after the other, or what
    /// it says of the first of them that it does not take.
    pub open spec fn link_each(self, links: Seq<BookAuthor>) -> Result<StoreState, Seq<char>>
        decreases links.len(),
    {
        if links.len() == 0 {
            Ok(self)
        } else {
            let link = links.last();
            match self.link_each(links.drop_last()) {
                Ok(linked) => if linked.tables.takes_link(link.book_id, link.author_id) {
                    Ok(linked.with_link(link.book_id, link.author_id))
                } else {
                    Err(linked.tables.refusal(link.book_id, link.author_id))
                },
                Err(refusal) => Err(refusal),
            }
        }
    }

    /// What the storage in memory is after the statement that inserts a
    /// book for each of `names`, and how it answers: where the ids that are
    /// left do not suffice, all of them are used up and no row is kept.
    pub open spec fn fill_books(self, names: Seq<Seq<char>>) -> (
        StoreState,
        Result<(), Seq<char>>,
    ) {
        if self.last_book_id + names.len() <= i32::MAX {
            (self.with_new_books(names), Ok(()))
        } else {
            (StoreState { last_book_id: i32::MAX, ..self }, Err(NO_BOOK_ID_LEFT@))
        }
    }

    /// What the storage in memory is after the statement that inserts an
    /// author for each of `names`, and how it answers: where the ids that
    /// are left do not suffice, all of them are used up and no row is kept.
    pub open spec fn fill_authors(self, names: Seq<Seq<char>>) -> (
        StoreState,
        Result<(), Seq<char>>,
    ) {
        if self.last_author_id + names.len() <= i32::MAX {
            (self.with_new_authors(names), Ok(()))
        } else {
            (StoreState { last_author_id: i32::MAX, ..self }, Err(NO_AUTHOR_ID_LEFT@))
        }
    }

    /// What the storage in memory is after the statement that inserts
    /// `links`, and how it answers: where it does not take one of them, no
    /// row is kept.
    pub open spec fn fill_book_authors(self, links: Seq<BookAuthor>) -> (
        StoreState,
        Result<(), Seq<char>>,
    ) {
        match self.link_each(links) {
            Ok(linked) => (linked, Ok(())),
            Err(refusal) => (self, Err(refusal)),
        }
    }

    /// What the storage in memory is after the fixture was loaded into it.
    ///
    /// The three tables are filled one after the other, each whether or not
    /// the one before it was filled. If all three were filled, their rows
    /// stay. If one was not, no row stays, and the ids that were generated
    /// on the way are used up.
    pub open spec fn seeded(self) -> StoreState {
        let books = self.fill_books(fixture_books());
        let authors = books.0.fill_authors(fixture_authors());
        let book_authors = authors.0.fill_book_authors(fixture_book_authors());
        if books.1 is Ok && authors.1 is Ok && book_authors.1 is Ok {
            book_authors.0
        } else {
            StoreState { tables: self.tables, ..book_authors.0 }
        }
    }

    /// The tables begin with the rows that they had when `marks` was taken
    /// of `begin`, and no id has been taken back since.
    pub(crate) open spec fn extends(self, begin: StoreState, marks: Marks) -> bool {
        &&& begin.is_marked_by(marks)
        &&& self.cut_back(marks).tables == begin.tables
        &&& begin.last_book_id <= self.last_book_id
        &&& begin.last_author_id <= self.last_author_id
    }
}

/// A storage that was consistent and has only grown since is consistent
/// again when it is cut back to the rows that it had.
proof fn lemma_cut_back_consistent(now: StoreState, begin: StoreState, marks: Marks)
    requires
        begin.consistent(),
        now.extends(begin, marks),
    ensures
        now.cut_back(marks).consistent(),
{
    let cut = now.cut_back(marks);
    assert forall|i: int| 0 <= i < cut.tables.books.len() implies 1 <= (
    #[trigger] cut.tables.books[i]).book_id <= cut.last_book_id by {}
    assert forall|i: int| 0 <= i < cut.tables.authors.len() implies 1 <= (
    #[trigger] cut.tables.authors[i]).author_id <= cut.last_author_id by {}
}

/// What the insertion of several books leaves as it was and what it adds.
pub proof fn lemma_with_new_books(store: StoreState, names: Seq<Seq<char>>)
    requires
        store.consistent(),
        store.last_book_id + names.len() <= i32::MAX,
    ensures
        store.with_new_books(names).consistent(),
        store.with_new_books(names).last_book_id == store.last_book_id + names.len(),
        store.with_new_books(names).last_author_id == store.last_author_id,
        store.with_new_books(names).tables.books.len() == store.tables.books.len() + names.len(),
        store.with_new_books(names).tables.books.take(store.tables.books.len() as int)
            == store.tables.books,
        store.with_new_books(names).tables.authors == store.tables.authors,
        store.with_new_books(names).tables.book_authors == store.tables.book_authors,
    decreases names.len(),
{
    if names.len() > 0 {
        let before = store.with_new_books(names.drop_last());
        lemma_with_new_books(store, names.drop_last());
        crate::books::lemma_with_new_book_consistent(before, names.last());
        assert(store.with_new_books(names).tables.books.take(store.tables.books.len() as int)
            =~= before.tables.books.take(store.tables.books.len() as int));
    }
}

/// What the insertion of several authors leaves as it was and what it adds.
pub proof fn lemma_with_new_authors(store: StoreState, names: Seq<Seq<char>>)
    requires
        store.consistent(),
        store.last_author_id + names.len() <= i32::MAX,
    ensures
        store.with_new_authors(names).consistent(),
        store.with_new_authors(names).last_author_id == store.last_author_id + names.len(),
        store.with_new_authors(names).last_book_id == store.last_book_id,
        store.with_new_authors(names).tables.authors.len() == store.tables.authors.len()
            + names.len(),
        store.with_new_authors(names).tables.authors.take(store.tables.authors.len() as int)
            == store.tables.authors,
        store.with_new_authors(names).tables.books == store.tables.books,
        store.with_new_authors(names).tables.book_authors == store.tables.book_authors,
    decreases names.len(),
{
    if names.len() > 0 {
        let before = store.with_new_authors(names.drop_last());
        lemma_with_new_authors(store, names.drop_last());
        crate::authors::lemma_with_new_author_consistent(before, names.last());
        assert(store.with_new_authors(names).tables.authors.take(
            store.tables.authors.len() as int,
        ) =~= before.tables.authors.take(store.tables.authors.len() as int));
    }
}

/// Inserts a book for each of `names`, or none of them.
fn fill_books(store: &mut Store, names: &Vec<&'static str>) -> (filled: Result<(), StorageError>)
    requires
        old(store)@.consistent(),
    ensures
        final(store)@.consistent(),
        (final(store)@, outcome_view(filled)) == old(store)@.fill_books(names_view(names@)),
{
    let ghost begin = store@;
    let ghost all = names_view(names@);
    let marks = store.marks();
    let mut i: usize = 0;
    while i < names.len()
        invariant
            begin.consistent(),
            begin == old(store)@,
            begin.is_marked_by(marks),
            all == names_view(names@),
            i <= names.len(),
            begin.last_book_id + i <= i32::MAX,
            store@ == begin.with_new_books(all.take(i as int)),
        decreases names.len() - i,
    {
        proof {
            lemma_with_new_books(begin, all.take(i as int));
            assert(all.take(i + 1).drop_last() =~= all.take(i as int));
        }
        match create_book(store, names[i]) {
            Ok(_) => {},
            Err(error) => {
                store.rewind(marks);
                proof {
                    let cut = begin.with_new_books(all.take(i as int)).cut_back(marks);
                    assert(cut.tables.authors =~= begin.tables.authors);
                    assert(cut.tables.book_authors =~= begin.tables.book_authors);
                    if begin.last_book_id + all.len() <= i32::MAX {
                        lemma_with_new_books(begin, all);
                    }
                }
                return Err(error);
            },
        }
        i += 1;
    }
    proof {
        assert(all.take(i as int) =~= all);
        lemma_with_new_books(begin, all);
    }
    Ok(())
}

/// Inserts an author for each of `names`, or none of them.
fn fill_authors(store: &mut Store, names: &Vec<&'static str>) -> (filled: Result<(), StorageError>)
    requires
        old(store)@.consistent(),
    ensures
        final(store)@.consistent(),
        (final(store)@, outcome_view(filled)) == old(store)@.fill_authors(names_view(names@)),
{
    let ghost begin = store@;
    let ghost all = names_view(names@);
    let marks = store.marks();
    let mut i: usize = 0;
    while i < names.len()
        invariant
            begin.consistent(),
            begin == old(store)@,
            begin.is_marked_by(marks),
            all == names_view(names@),
            i <= names.len(),
            begin.last_author_id + i <= i32::MAX,
            store@ == begin.with_new_authors(all.take(i as int)),
        decreases names.len() - i,
    {
        proof {
            lemma_with_new_authors(begin, all.take(i as int));
            assert(all.take(i + 1).drop_last() =~= all.take(i as int));
        }
        match create_author(store, names[i]) {
            Ok(_) => {},
            Err(error) => {
                store.rewind(marks);
                proof {
                    let cut = begin.with_new_authors(all.take(i as int)).cut_back(marks);
                    assert(cut.tables.books =~= begin.tables.books);
                    assert(cut.tables.book_authors =~= begin.tables.book_authors);
                    if begin.last_author_id + all.len() <= i32::MAX {
                        lemma_with_new_authors(begin, all);
                    }
                }
                return Err(error);
            },
        }
        i += 1;
    }
    proof {
        assert(all.take(i as int) =~= all);
        lemma_with_new_authors(begin, all);
    }
    Ok(())
}

/// What the insertion of several links leaves as it was and what it adds.
pub proof fn lemma_link_each(store: StoreState, links: Seq<BookAuthor>)
    requires
        store.consistent(),
    ensures
        match store.link_each(links) {
            Ok(linked) => {
                &&& linked.consistent()
                &&& linked.last_book_id == store.last_book_id
                &&& linked.last_author_id == store.last_author_id
                &&& linked.tables.books == store.tables.books
                &&& linked.tables.authors == store.tables.authors
                &&& linked.tables.book_authors.len() == store.tables.book_authors.len()
                    + links.len()
                &&& linked.tables.book_authors.take(store.tables.book_authors.len() as int)
                    == store.tables.book_authors
            },
            Err(_) => true,
        },
    decreases links.len(),
{
    let held = store.tables.book_authors.len() as int;
    if links.len() > 0 {
        lemma_link_each(store, links.drop_last());
        match store.link_each(links.drop_last()) {
            Ok(before) => {
                let link = links.last();
                if before.tables.takes_link(link.book_id, link.author_id) {
                    lemma_with_link_consistent(before, link.book_id, link.author_id);
                    let linked = before.with_link(link.book_id, link.author_id);
                    assert(linked.tables.book_authors.take(held)
                        =~= before.tables.book_authors.take(held));
                }
            },
            Err(_) => {},
        }
    }
}

/// Once a link was not taken, the links after it do not matter.
pub proof fn lemma_link_each_refused(store: StoreState, links: Seq<BookAuthor>, i: int)
    requires
        0 <= i <= links.len(),
        store.link_each(links.take(i)) is Err,
    ensures
        store.link_each(links) == store.link_each(links.take(i)),
    decreases links.len(),
{
    if i == links.len() {
        assert(links.take(i) =~= links);
    } else {
        assert(links.drop_last().take(i) =~= links.take(i));
        lemma_link_each_refused(store, links.drop_last(), i);
    }
}

/// Inserts `links`, or none of them.
fn fill_book_authors(store: &mut Store, links: &Vec<BookAuthor>) -> (filled: Result<
    (),
    StorageError,
>)
    requires
        old(store)@.consistent(),
    ensures
        final(store)@.consistent(),
        (final(store)@, outcome_view(filled)) == old(store)@.fill_book_authors(links@),
{
    let ghost begin = store@;
    let marks = store.marks();
    let mut i: usize = 0;
    while i < links.len()
        invariant
            begin.consistent(),
            begin == old(store)@,
            begin.is_marked_by(marks),
            i <= links.len(),
            store@.consistent(),
            begin.link_each(links@.take(i as int)) == Ok::<StoreState, Seq<char>>(store@),
        decreases links.len() - i,
    {
        let link = links[i];
        proof {
            lemma_link_each(begin, links@.take(i as int));
            assert(links@.take(i + 1).drop_last() =~= links@.take(i as int));
        }
        match store.associate(link.book_id, link.author_id) {
            Ok(_) => {},
            Err(error) => {
                store.rewind(marks);
                proof {
                    lemma_link_each_refused(begin, links@, i + 1);
                    assert(store@.tables.books =~= begin.tables.books);
                    assert(store@.tables.authors =~= begin.tables.authors);
                }
                return Err(error);
            },
        }
        i += 1;
    }
    proof {
        assert(links@.take(i as int) =~= links@);
    }
    Ok(())
}

impl StoreState {
    /// How the storage in memory answers a statement of the transaction
    /// that loads the fixture, and what it is afterwards. `marks` holds the
    /// lengths of the tables at the start of the transaction, to which a
    /// rollback cuts them back.
    pub(crate) open spec fn answer_to(self, marks: Marks, statement: Statement) -> (
        StoreState,
        Result<(), Seq<char>>,
    ) {
        match statement {
            Statement::Begin => (self, Ok(())),
            Statement::Fill(Table::Books) => self.fill_books(fixture_books()),
            Statement::Fill(Table::Authors) => self.fill_authors(fixture_authors()),
            Statement::Fill(Table::BookAuthors) => self.fill_book_authors(fixture_book_authors()),
            Statement::Commit => (self, Ok(())),
            Statement::Rollback => (self.cut_back(marks), Ok(())),
        }
    }
}

/// Filling a table leaves the rows that were there where they were, and
/// takes back no id.
proof fn lemma_fill_extends(now: StoreState, begin: StoreState, marks: Marks)
    requires
        begin.consistent(),
        now.consistent(),
        now.extends(begin, marks),
        marks.books <= now.tables.books.len(),
        marks.authors <= now.tables.authors.len(),
        marks.book_authors <= now.tables.book_authors.len(),
    ensures
        now.fill_books(fixture_books()).0.extends(begin, marks),
        now.fill_authors(fixture_authors()).0.extends(begin, marks),
        now.fill_book_authors(fixture_book_authors()).0.extends(begin, marks),
        marks.books <= now.fill_books(fixture_books()).0.tables.books.len(),
        marks.authors <= now.fill_books(fixture_books()).0.tables.authors.len(),
        marks.book_authors <= now.fill_books(fixture_books()).0.tables.book_authors.len(),
        marks.books <= now.fill_authors(fixture_authors()).0.tables.books.len(),
        marks.authors <= now.fill_authors(fixture_authors()).0.tables.authors.len(),
        marks.book_authors <= now.fill_authors(fixture_authors()).0.tables.book_authors.len(),
        marks.books <= now.fill_book_authors(fixture_book_authors()).0.tables.books.len(),
        marks.authors <= now.fill_book_authors(fixture_book_authors()).0.tables.authors.len(),
        marks.book_authors <= now.fill_book_authors(
            fixture_book_authors(),
        ).0.tables.book_authors.len(),
{
    if now.last_book_id + fixture_books().len() <= i32::MAX {
        lemma_with_new_books(now, fixture_books());
        let filled = now.with_new_books(fixture_books());
        assert(filled.cut_back(marks).tables.books =~= now.cut_back(marks).tables.books) by {
            assert(filled.tables.books.take(now.tables.books.len() as int).take(
                marks.books as int,
            ) =~= filled.tables.books.take(marks.books as int));
        }
    }
    if now.last_author_id + fixture_authors().len() <= i32::MAX {
        lemma_with_new_authors(now, fixture_authors());
        let filled = now.with_new_authors(fixture_authors());
        assert(filled.cut_back(marks).tables.authors =~= now.cut_back(marks).tables.authors) by {
            assert(filled.tables.authors.take(now.tables.authors.len() as int).take(
                marks.authors as int,
            ) =~= filled.tables.authors.take(marks.authors as int));
        }
    }
    lemma_link_each(now, fixture_book_authors());
    match now.link_each(fixture_book_authors()) {
        Ok(linked) => {
            assert(linked.cut_back(marks).tables.book_authors =~= now.cut_back(
                marks,
            ).tables.book_authors) by {
                assert(linked.tables.book_authors.take(
                    now.tables.book_authors.len() as int,
                ).take(marks.book_authors as int) =~= linked.tables.book_authors.take(
                    marks.book_authors as int,
                ));
            }
        },
        Err(_) => {},
    }
}

/// Filling a table leaves the storage consistent.
proof fn lemma_fill_consistent(now: StoreState)
    requires
        now.consistent(),
    ensures
        now.fill_books(fixture_books()).0.consistent(),
        now.fill_authors(fixture_authors()).0.consistent(),
        now.fill_book_authors(fixture_book_authors()).0.consistent(),
{
    lemma_link_each(now, fixture_book_authors());
    if now.last_book_id + fixture_books().len() <= i32::MAX {
        lemma_with_new_books(now, fixture_books());
    }
    if now.last_author_id + fixture_authors().len() <= i32::MAX {
        lemma_with_new_authors(now, fixture_authors());
    }
}

/// The statements that the transaction in the state `seeding` has still to
/// make.
spec fn remaining(seeding: Seeding) -> nat {
    match seeding {
        Seeding::Beginning => 5,
        Seeding::Filling { table: Table::Books, .. } => 4,
        Seeding::Filling { table: Table::Authors, .. } => 3,
        Seeding::Filling { table: Table::BookAuthors, .. } => 2,
        Seeding::Committing => 1,
        Seeding::RollingBack => 1,
    }
}

/// What holds between the statements of the transaction that loads the
/// fixture into the storage in memory: `begin` is the storage at the start,
/// `now` the storage as it is.
spec fn on_track(
    begin: StoreState,
    now: StoreState,
    marks: Marks,
    seeding: Seeding,
    statement: Statement,
) -> bool {
    let books = begin.fill_books(fixture_books());
    let authors = books.0.fill_authors(fixture_authors());
    let book_authors = authors.0.fill_book_authors(fixture_book_authors());
    &&& begin.consistent()
    &&& now.consistent()
    &&& begin.is_marked_by(marks)
    &&& match seeding {
        Seeding::Beginning => statement == Statement::Begin && now == begin,
        Seeding::Filling { table: Table::Books, is_success } => {
            &&& statement == Statement::Fill(Table::Books)
            &&& is_success
            &&& now == begin
        },
        Seeding::Filling { table: Table::Authors, is_success } => {
            &&& statement == Statement::Fill(Table::Authors)
            &&& is_success == books.1 is Ok
            &&& now == books.0
        },
        Seeding::Filling { table: Table::BookAuthors, is_success } => {
            &&& statement == Statement::Fill(Table::BookAuthors)
            &&& is_success == (books.1 is Ok && authors.1 is Ok)
            &&& now == authors.0
        },
        Seeding::Committing => {
            &&& statement == Statement::Commit
            &&& books.1 is Ok && authors.1 is Ok && book_authors.1 is Ok
            &&& now == book_authors.0
        },
        Seeding::RollingBack => {
            &&& statement == Statement::Rollback
            &&& !(books.1 is Ok && authors.1 is Ok && book_authors.1 is Ok)
            &&& now == book_authors.0
        },
    }
}

/// Carries out a statement on the storage in memory.
fn perform(store: &mut Store, marks: Marks, statement: Statement) -> (outcome: Result<
    (),
    StorageError,
>)
    requires
        old(store)@.consistent(),
        statement is Rollback ==> {
            &&& marks.books <= old(store)@.tables.books.len()
            &&& marks.authors <= old(store)@.tables.authors.len()
            &&& marks.book_authors <= old(store)@.tables.book_authors.len()
            &&& old(store)@.cut_back(marks).consistent()
        },
    ensures
        final(store)@.consistent(),
        (final(store)@, outcome_view(outcome)) == old(store)@.answer_to(marks, statement),
{
    match statement {
        Statement::Begin => Ok(()),
        Statement::Fill(Table::Books) => fill_books(store, &book_names()),
        Statement::Fill(Table::Authors) => fill_authors(store, &author_names()),
        Statement::Fill(Table::BookAuthors) => fill_book_authors(store, &book_authors()),
        Statement::Commit => Ok(()),
        Statement::Rollback => {
            store.rewind(marks);
            Ok(())
        },
    }
}

/// Loads the fixture into the storage in memory, all of it or nothing, in
/// one transaction.
///
/// That the fixture could not be loaded is no failure: the transaction was
/// rolled back, and the result is that of the rollback.
pub fn run(store: &mut Store) -> (seeded: Result<(), StorageError>)
    requires
        old(store)@.consistent(),
    ensures
        final(store)@.consistent(),
        final(store)@ == old(store)@.seeded(),
        seeded is Ok,
{
    let marks = store.marks();
    let (mut seeding, mut statement) = Seeding::start();
    loop
        invariant
            on_track(old(store)@, store@, marks, seeding, statement),
        decreases remaining(seeding),
    {
        proof {
            let begin = old(store)@;
            let books = begin.fill_books(fixture_books());
            let authors = books.0.fill_authors(fixture_authors());
            let book_authors = authors.0.fill_book_authors(fixture_book_authors());
            assert(begin.cut_back(marks).tables.books =~= begin.tables.books);
            assert(begin.cut_back(marks).tables.authors =~= begin.tables.authors);
            assert(begin.cut_back(marks).tables.book_authors =~= begin.tables.book_authors);
            lemma_fill_extends(begin, begin, marks);
            lemma_fill_consistent(begin);
            lemma_fill_extends(books.0, begin, marks);
            lemma_fill_consistent(books.0);
            lemma_fill_extends(authors.0, begin, marks);
            lemma_cut_back_consistent(book_authors.0, begin, marks);
        }
        let outcome = perform(store, marks, statement);
        match seeding.step(outcome) {
            Progress::Next(next_seeding, next_statement) => {
                seeding = next_seeding;
                statement = next_statement;
            },
            Progress::Finished(seeded) => {
                return seeded;
            },
        }
    }
}

} // verus!
