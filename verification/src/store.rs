//! The three tables and a storage that holds them in memory.
//!
//! [`Tables`] is the mathematical value of a storage: the rows of `books`,
//! `authors` and `book_authors`. What the operations of the other modules
//! do is stated over it. [`Store`] is a storage of that value which lives
//! in memory.

use crate::authors::{author_views, index_of_author, position_of_author};
use crate::authors::{Author, AuthorId, AuthorView};
use crate::books::{book_views, index_of_book, position_of_book};
use crate::books::{Book, BookId, BookView};
use crate::error::StorageError;
use vstd::prelude::*;

verus! {

/// A row of the `book_authors` table: the book was written by the author.
#[derive(Debug, Clone, Copy, PartialEq, Eq, Structural)]
pub struct BookAuthor {
    pub book_id: BookId,
    pub author_id: AuthorId,
}

/// A row of the join of the three tables: a book, and an author that a link
/// gives it.
#[derive(Debug, Clone, PartialEq, Eq)]
pub struct BookAuthorRow {
    pub book_id: BookId,
    pub book_name: String,
    pub author_id: AuthorId,
    pub author_name: String,
}

/// Mathematical value of a [`BookAuthorRow`].
pub struct BookAuthorRowView {
    pub book_id: BookId,
    pub book_name: Seq<char>,
    pub author_id: AuthorId,
    pub author_name: Seq<char>,
}

impl View for BookAuthorRow {
    type V = BookAuthorRowView;

    open spec fn view(&self) -> BookAuthorRowView {
        BookAuthorRowView {
            book_id: self.book_id,
            book_name: self.book_name@,
            author_id: self.author_id,
            author_name: self.author_name@,
        }
    }
}

impl BookAuthorRowView {
    /// The book of the row.
    pub open spec fn book(self) -> BookView {
        BookView { book_id: self.book_id, name: self.book_name }
    }

    /// The author of the row.
    pub open spec fn author(self) -> AuthorView {
        AuthorView { author_id: self.author_id, name: self.author_name }
    }
}

/// The rows that a vector of joined rows stands for.
pub open spec fn row_views(rows: Seq<BookAuthorRow>) -> Seq<BookAuthorRowView> {
    Seq::new(rows.len(), |i: int| rows[i]@)
}

/// What the storage says when a link names a book or an author that it
/// does not hold.
pub const NO_SUCH_BOOK_OR_AUTHOR: &'static str =
    "a link must name a book and an author that exist";

/// What the storage says when a link is there already.
pub const ALREADY_LINKED: &'static str = "the book and the author are linked already";

/// The rows of the three tables, each table in the order of insertion.
pub struct Tables {
    pub books: Seq<BookView>,
    pub authors: Seq<AuthorView>,
    pub book_authors: Seq<BookAuthor>,
}

impl Tables {
    /// Three tables without rows.
    pub open spec fn empty() -> Tables {
        Tables { books: Seq::empty(), authors: Seq::empty(), book_authors: Seq::empty() }
    }

    /// The tables with one more row in `book_authors`.
    pub open spec fn with_link(self, book_id: BookId, author_id: AuthorId) -> Tables {
        Tables { book_authors: self.book_authors.push(BookAuthor { book_id, author_id }), ..self }
    }

    /// The row of the join that a link gives: the book and the author that
    /// it names, with their names.
    pub open spec fn joined_row(self, link: BookAuthor) -> BookAuthorRowView {
        BookAuthorRowView {
            book_id: link.book_id,
            book_name: self.books[index_of_book(self.books, link.book_id)].name,
            author_id: link.author_id,
            author_name: self.authors[index_of_author(self.authors, link.author_id)].name,
        }
    }

    /// The join of the three tables, where they are consistent: one row for
    /// each link, in the order of the links. A book or an author that no
    /// link names has no row.
    pub open spec fn joined(self) -> Seq<BookAuthorRowView> {
        Seq::new(self.book_authors.len(), |k: int| self.joined_row(self.book_authors[k]))
    }

    /// Some row of `book_authors` links the book and the author.
    pub open spec fn has_link(self, book_id: BookId, author_id: AuthorId) -> bool {
        self.book_authors.contains(BookAuthor { book_id, author_id })
    }

    /// The storage takes the link: it holds the book and the author, and
    /// does not hold the link yet.
    pub open spec fn takes_link(self, book_id: BookId, author_id: AuthorId) -> bool {
        &&& self.has_book(book_id)
        &&& self.has_author(author_id)
        &&& !self.has_link(book_id, author_id)
    }

    /// What the storage says of a link that it does not take.
    pub open spec fn refusal(self, book_id: BookId, author_id: AuthorId) -> Seq<char> {
        if self.has_book(book_id) && self.has_author(author_id) {
            ALREADY_LINKED@
        } else {
            NO_SUCH_BOOK_OR_AUTHOR@
        }
    }

    /// No two rows of `book_authors` are the same.
    pub open spec fn links_differ(self) -> bool {
        self.book_authors.no_duplicates()
    }

    /// Every row of `book_authors` names a book and an author that exist.
    pub open spec fn links_resolve(self) -> bool {
        forall|k: int|
            0 <= k < self.book_authors.len() ==> {
                &&& self.has_book((#[trigger] self.book_authors[k]).book_id)
                &&& self.has_author(self.book_authors[k].author_id)
            }
    }

    /// What the storage guarantees of its rows: no two books share an id,
    /// no two authors share an id, no link is there twice, and every link
    /// names a book and an author that exist.
    pub open spec fn consistent(self) -> bool {
        &&& self.book_ids_differ()
        &&& self.author_ids_differ()
        &&& self.links_differ()
        &&& self.links_resolve()
    }
}

/// Mathematical value of a [`Store`]: its rows, and the last id that was
/// generated for each of the two tables that generate ids.
pub struct StoreState {
    pub tables: Tables,
    pub last_book_id: BookId,
    pub last_author_id: AuthorId,
}

impl StoreState {
    /// The storage with one more row in `book_authors`.
    pub open spec fn with_link(self, book_id: BookId, author_id: AuthorId) -> StoreState {
        StoreState { tables: self.tables.with_link(book_id, author_id), ..self }
    }

    /// The storage with each table cut back to its first rows, as many as
    /// `marks` says.
    pub(crate) open spec fn cut_back(self, marks: Marks) -> StoreState {
        StoreState {
            tables: Tables {
                books: self.tables.books.take(marks.books as int),
                authors: self.tables.authors.take(marks.authors as int),
                book_authors: self.tables.book_authors.take(marks.book_authors as int),
            },
            ..self
        }
    }

    /// The lengths of the three tables are those that `marks` says.
    pub(crate) open spec fn is_marked_by(self, marks: Marks) -> bool {
        &&& marks.books == self.tables.books.len()
        &&& marks.authors == self.tables.authors.len()
        &&& marks.book_authors == self.tables.book_authors.len()
    }

    /// The rows are consistent, and every id in them was generated: ids
    /// start at 1 and none is beyond the last one generated.
    pub open spec fn consistent(self) -> bool {
        &&& self.tables.consistent()
        &&& 0 <= self.last_book_id
        &&& 0 <= self.last_author_id
        &&& forall|i: int|
            0 <= i < self.tables.books.len() ==> 1 <= (#[trigger] self.tables.books[i]).book_id
                <= self.last_book_id
        &&& forall|i: int|
            0 <= i < self.tables.authors.len() ==> 1 <= (
            #[trigger] self.tables.authors[i]).author_id <= self.last_author_id
    }
}

/// The lengths of the three tables at some moment.
#[derive(Clone, Copy)]
pub(crate) struct Marks {
    pub(crate) books: usize,
    pub(crate) authors: usize,
    pub(crate) book_authors: usize,
}

/// A storage stays consistent when it inserts a link that it takes.
pub proof fn lemma_with_link_consistent(store: StoreState, book_id: BookId, author_id: AuthorId)
    requires
        store.consistent(),
        store.tables.takes_link(book_id, author_id),
    ensures
        store.with_link(book_id, author_id).consistent(),
{
    let after = store.with_link(book_id, author_id);
    assert forall|k: int| 0 <= k < after.tables.book_authors.len() implies {
        &&& after.tables.has_book((#[trigger] after.tables.book_authors[k]).book_id)
        &&& after.tables.has_author(after.tables.book_authors[k].author_id)
    } by {}
}

/// A storage for books, authors and their links that lives in memory.
///
/// - It generates the ids 1, 2, 3, ... for each of the two tables and never
///   generates an id twice, whatever was deleted or rolled back in between.
/// - It takes a link between a book and an author that it holds, once.
/// - With a book or an author it deletes the links that name it, so that
///   every link names rows that exist.
pub struct Store {
    pub(crate) books: Vec<Book>,
    pub(crate) authors: Vec<Author>,
    pub(crate) book_authors: Vec<BookAuthor>,
    pub(crate) last_book_id: BookId,
    pub(crate) last_author_id: AuthorId,
}

impl View for Store {
    type V = StoreState;

    open(crate) spec fn view(&self) -> StoreState {
        StoreState {
            tables: Tables {
                books: book_views(self.books@),
                authors: author_views(self.authors@),
                book_authors: self.book_authors@,
            },
            last_book_id: self.last_book_id,
            last_author_id: self.last_author_id,
        }
    }
}

impl Store {
    /// A storage without rows that has generated no id yet.
    pub fn new() -> (store: Store)
        ensures
            store@.tables == Tables::empty(),
            store@.last_book_id == 0,
            store@.last_author_id == 0,
            store@.consistent(),
    {
        let store = Store {
            books: Vec::new(),
            authors: Vec::new(),
            book_authors: Vec::new(),
            last_book_id: 0,
            last_author_id: 0,
        };
        assert(store@.tables.books =~= Seq::empty());
        assert(store@.tables.authors =~= Seq::empty());
        store
    }

    /// A storage without rows whose last generated ids are the given ones,
    /// so that the next book gets the id after `last_book_id` and the next
    /// author the id after `last_author_id`. `None` where one of the two
    /// is negative.
    pub fn resuming(last_book_id: BookId, last_author_id: AuthorId) -> (store: Option<Store>)
        ensures
            match store {
                Some(store) => {
                    &&& 0 <= last_book_id
                    &&& 0 <= last_author_id
                    &&& store@ == (StoreState {
                        tables: Tables::empty(),
                        last_book_id,
                        last_author_id,
                    })
                    &&& store@.consistent()
                },
                None => last_book_id < 0 || last_author_id < 0,
            },
    {
        if last_book_id < 0 || last_author_id < 0 {
            return None;
        }
        let store = Store {
            books: Vec::new(),
            authors: Vec::new(),
            book_authors: Vec::new(),
            last_book_id,
            last_author_id,
        };
        assert(store@.tables.books =~= Seq::empty());
        assert(store@.tables.authors =~= Seq::empty());
        Some(store)
    }

    /// The join of the three tables: for each link the book and the author
    /// that it names, in the order of the links.
    pub fn joined(&self) -> (rows: Vec<BookAuthorRow>)
        requires
            self@.consistent(),
        ensures
            row_views(rows@) == self@.tables.joined(),
    {
        let mut rows: Vec<BookAuthorRow> = Vec::new();
        let mut k: usize = 0;
        while k < self.book_authors.len()
            invariant
                self@.consistent(),
                k <= self.book_authors.len(),
                rows.len() == k,
                forall|n: int|
                    0 <= n < k ==> (#[trigger] rows[n])@ == self@.tables.joined_row(
                        self.book_authors[n],
                    ),
            decreases self.book_authors.len() - k,
        {
            let link = self.book_authors[k];
            let book = position_of_book(self, link.book_id);
            let author = position_of_author(self, link.author_id);
            if let (Some(i), Some(j)) = (book, author) {
                rows.push(
                    BookAuthorRow {
                        book_id: link.book_id,
                        book_name: self.books[i].name.clone(),
                        author_id: link.author_id,
                        author_name: self.authors[j].name.clone(),
                    },
                );
            }
            k += 1;
        }
        rows
    }

    /// The lengths of the three tables as they are now.
    pub(crate) fn marks(&self) -> (marks: Marks)
        ensures
            self@.is_marked_by(marks),
    {
        Marks {
            books: self.books.len(),
            authors: self.authors.len(),
            book_authors: self.book_authors.len(),
        }
    }

    /// Drops the rows that came after `marks` was taken.
    pub(crate) fn rewind(&mut self, marks: Marks)
        requires
            marks.books <= old(self)@.tables.books.len(),
            marks.authors <= old(self)@.tables.authors.len(),
            marks.book_authors <= old(self)@.tables.book_authors.len(),
        ensures
            final(self)@ == old(self)@.cut_back(marks),
    {
        self.books.truncate(marks.books);
        self.authors.truncate(marks.authors);
        self.book_authors.truncate(marks.book_authors);
        proof {
            let cut = old(self)@.cut_back(marks);
            assert(self@.tables.books =~= cut.tables.books);
            assert(self@.tables.authors =~= cut.tables.authors);
        }
    }

    /// Whether the storage holds the link between the book `book_id` and
    /// the author `author_id`.
    fn is_linked(&self, book_id: BookId, author_id: AuthorId) -> (linked: bool)
        ensures
            linked == self@.tables.has_link(book_id, author_id),
    {
        let mut k: usize = 0;
        while k < self.book_authors.len()
            invariant
                k <= self.book_authors.len(),
                forall|n: int|
                    0 <= n < k ==> self.book_authors[n] != (BookAuthor { book_id, author_id }),
            decreases self.book_authors.len() - k,
        {
            let link = self.book_authors[k];
            if link.book_id == book_id && link.author_id == author_id {
                return true;
            }
            k += 1;
        }
        false
    }

    /// Inserts the link between the book `book_id` and the author
    /// `author_id`. Fails, and changes nothing, unless the storage holds
    /// both and does not hold the link yet.
    pub(crate) fn associate(&mut self, book_id: BookId, author_id: AuthorId) -> (linked: Result<
        (),
        StorageError,
    >)
        requires
            old(self)@.consistent(),
        ensures
            final(self)@.consistent(),
            match linked {
                Ok(_) => {
                    &&& old(self)@.tables.takes_link(book_id, author_id)
                    &&& final(self)@ == old(self)@.with_link(book_id, author_id)
                },
                Err(error) => {
                    &&& !old(self)@.tables.takes_link(book_id, author_id)
                    &&& final(self)@ == old(self)@
                    &&& error@ == old(self)@.tables.refusal(book_id, author_id)
                },
            },
    {
        let book = position_of_book(self, book_id);
        let author = position_of_author(self, author_id);
        if book.is_none() || author.is_none() {
            return Err(StorageError { message: NO_SUCH_BOOK_OR_AUTHOR.to_owned() });
        }
        if self.is_linked(book_id, author_id) {
            return Err(StorageError { message: ALREADY_LINKED.to_owned() });
        }
        self.book_authors.push(BookAuthor { book_id, author_id });
        proof {
            lemma_with_link_consistent(old(self)@, book_id, author_id);
        }
        Ok(())
    }
}

} // verus!
