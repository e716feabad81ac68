//! The creation of a book and an author that are linked to each other, as
//! one transaction.
//!
//! The work on the storage is not done here. A [`Pairing`] says which
//! statement comes next and, once it is told how that statement went, which
//! one follows; whoever holds the connection carries the statements out.

use crate::authors::{create_author, AuthorId, NO_AUTHOR_ID_LEFT};
use crate::books::{create_book, BookId, NO_BOOK_ID_LEFT};
use crate::error::{Step, StorageError, TransactionError, TransactionErrorView};
use crate::store::{BookAuthor, Marks, Store, StoreState, Tables};
use vstd::prelude::*;

verus! {

/// Which of the two rows is inserted first.
#[derive(Debug, Clone, Copy, PartialEq, Eq, Structural)]
pub enum Order {
    BookFirst,
    AuthorFirst,
}

/// What stands for the failure of an insertion that was answered without
/// the id of the row.
pub const NO_ID_RETURNED: &'static str = "the insertion gave no id";

/// A statement for the storage.
#[derive(Debug, Clone, PartialEq, Eq)]
pub enum Action {
    /// Start a transaction.
    Begin,
    /// Insert a row into `books`; the storage generates its id.
    InsertBook { name: String },
    /// Insert a row into `authors`; the storage generates its id.
    InsertAuthor { name: String },
    /// Insert the row `(book_id, author_id)` into `book_authors`.
    Associate { book_id: BookId, author_id: AuthorId },
    /// Make the insertions of the transaction durable.
    Commit,
    /// Undo the insertions of the transaction.
    Rollback,
}

/// Mathematical value of an [`Action`].
pub enum ActionView {
    Begin,
    InsertBook { name: Seq<char> },
    InsertAuthor { name: Seq<char> },
    Associate { book_id: BookId, author_id: AuthorId },
    Commit,
    Rollback,
}

impl View for Action {
    type V = ActionView;

    open spec fn view(&self) -> ActionView {
        match self {
            Action::Begin => ActionView::Begin,
            Action::InsertBook { name } => ActionView::InsertBook { name: name@ },
            Action::InsertAuthor { name } => ActionView::InsertAuthor { name: name@ },
            Action::Associate { book_id, author_id } => ActionView::Associate {
                book_id: *book_id,
                author_id: *author_id,
            },
            Action::Commit => ActionView::Commit,
            Action::Rollback => ActionView::Rollback,
        }
    }
}

/// How the storage answered a statement.
#[derive(Debug, Clone, PartialEq, Eq)]
pub enum Event {
    /// The statement was carried out; it generated no id.
    Completed,
    /// The row was inserted under this generated id.
    Inserted(i32),
    /// The statement failed.
    Failed(StorageError),
}

/// Mathematical value of an [`Event`].
pub enum EventView {
    Completed,
    Inserted(i32),
    Failed(Seq<char>),
}

impl View for Event {
    type V = EventView;

    open spec fn view(&self) -> EventView {
        match self {
            Event::Completed => EventView::Completed,
            Event::Inserted(id) => EventView::Inserted(*id),
            Event::Failed(e) => EventView::Failed(e@),
        }
    }
}

/// The state of a transaction that creates a book, an author and their
/// link: which statement is under way, and what has been learnt so far.
#[derive(Debug, Clone, PartialEq, Eq)]
pub enum Pairing {
    /// `Begin` is under way.
    Beginning { order: Order, book_name: String, author_name: String },
    /// The first insertion is under way; `second_name` waits for the second.
    InsertingFirst { order: Order, second_name: String },
    /// The second insertion is under way; the first gave `first_id`.
    InsertingSecond { order: Order, first_id: i32 },
    /// The insertion of the link is under way.
    Associating { book_id: BookId, author_id: AuthorId },
    /// `Commit` is under way.
    Committing { book_id: BookId, author_id: AuthorId },
    /// `Rollback` is under way, because `step` failed with `cause`.
    RollingBack { step: Step, cause: StorageError },
}

/// Mathematical value of a [`Pairing`].
pub enum PairingView {
    Beginning { order: Order, book_name: Seq<char>, author_name: Seq<char> },
    InsertingFirst { order: Order, second_name: Seq<char> },
    InsertingSecond { order: Order, first_id: i32 },
    Associating { book_id: BookId, author_id: AuthorId },
    Committing { book_id: BookId, author_id: AuthorId },
    RollingBack { step: Step, cause: Seq<char> },
}

impl View for Pairing {
    type V = PairingView;

    open spec fn view(&self) -> PairingView {
        match self {
            Pairing::Beginning { order, book_name, author_name } => PairingView::Beginning {
                order: *order,
                book_name: book_name@,
                author_name: author_name@,
            },
            Pairing::InsertingFirst { order, second_name } => PairingView::InsertingFirst {
                order: *order,
                second_name: second_name@,
            },
            Pairing::InsertingSecond { order, first_id } => PairingView::InsertingSecond {
                order: *order,
                first_id: *first_id,
            },
            Pairing::Associating { book_id, author_id } => PairingView::Associating {
                book_id: *book_id,
                author_id: *author_id,
            },
            Pairing::Committing { book_id, author_id } => PairingView::Committing {
                book_id: *book_id,
                author_id: *author_id,
            },
            Pairing::RollingBack { step, cause } => PairingView::RollingBack {
                step: *step,
                cause: cause@,
            },
        }
    }
}

/// What a [`Pairing`] asks for once it has been told how a statement went.
#[derive(Debug, PartialEq, Eq)]
pub enum Progress {
    /// The transaction goes on: carry out the statement and report back to
    /// the new state.
    Next(Pairing, Action),
    /// The transaction is over, with the ids of the book and of the author,
    /// or with the reason why nothing was created.
    Finished(Result<(BookId, AuthorId), TransactionError>),
}

/// Mathematical value of a [`Progress`].
pub enum ProgressView {
    Next(PairingView, ActionView),
    Finished(Result<(BookId, AuthorId), TransactionErrorView>),
}

impl View for Progress {
    type V = ProgressView;

    open spec fn view(&self) -> ProgressView {
        match self {
            Progress::Next(pairing, action) => ProgressView::Next(pairing@, action@),
            Progress::Finished(Ok(ids)) => ProgressView::Finished(Ok(*ids)),
            Progress::Finished(Err(e)) => ProgressView::Finished(Err(e@)),
        }
    }
}

impl Order {
    /// The row that the first insertion creates.
    pub open spec fn first_step(self) -> Step {
        match self {
            Order::BookFirst => Step::Book,
            Order::AuthorFirst => Step::Author,
        }
    }

    /// The row that the second insertion creates.
    pub open spec fn second_step(self) -> Step {
        match self {
            Order::BookFirst => Step::Author,
            Order::AuthorFirst => Step::Book,
        }
    }

    /// The statement that inserts the first row, which is to carry `name`.
    pub open spec fn first_insertion(self, name: Seq<char>) -> ActionView {
        match self {
            Order::BookFirst => ActionView::InsertBook { name },
            Order::AuthorFirst => ActionView::InsertAuthor { name },
        }
    }

    /// The statement that inserts the second row, which is to carry `name`.
    pub open spec fn second_insertion(self, name: Seq<char>) -> ActionView {
        match self {
            Order::BookFirst => ActionView::InsertAuthor { name },
            Order::AuthorFirst => ActionView::InsertBook { name },
        }
    }

    /// The id of the book, given the ids in the order of their generation.
    pub open spec fn book_id(self, first_id: i32, second_id: i32) -> BookId {
        match self {
            Order::BookFirst => first_id,
            Order::AuthorFirst => second_id,
        }
    }

    /// The id of the author, given the ids in the order of their generation.
    pub open spec fn author_id(self, first_id: i32, second_id: i32) -> AuthorId {
        match self {
            Order::BookFirst => second_id,
            Order::AuthorFirst => first_id,
        }
    }
}

impl PairingView {
    /// The transaction's rules: the state and the statement that follow
    /// when the statement under way was answered by `event`, or the result
    /// with which the transaction is over.
    ///
    /// - The transaction is begun first. If that fails, nothing else is
    ///   attempted.
    /// - The two rows are inserted in the given order, then their link.
    /// - The first failure among these three ends the insertions: the
    ///   transaction is rolled back, and the result names the step and
    ///   carries its failure. If the rollback fails, its own failure is the
    ///   result instead.
    /// - After three insertions the transaction is committed. Only a commit
    ///   that completed gives the two ids.
    /// - Every answer but `Failed` is a success, with one exception: the
    ///   insertion of a book or an author that is answered without an id
    ///   has failed, and [`NO_ID_RETURNED`] stands for its failure.
    pub open spec fn after(self, event: EventView) -> ProgressView {
        match self {
            PairingView::Beginning { order, book_name, author_name } => match event {
                EventView::Failed(e) => ProgressView::Finished(
                    Err(TransactionErrorView::Begin(e)),
                ),
                _ => match order {
                    Order::BookFirst => ProgressView::Next(
                        PairingView::InsertingFirst { order, second_name: author_name },
                        order.first_insertion(book_name),
                    ),
                    Order::AuthorFirst => ProgressView::Next(
                        PairingView::InsertingFirst { order, second_name: book_name },
                        order.first_insertion(author_name),
                    ),
                },
            },
            PairingView::InsertingFirst { order, second_name } => match event {
                EventView::Inserted(first_id) => ProgressView::Next(
                    PairingView::InsertingSecond { order, first_id },
                    order.second_insertion(second_name),
                ),
                EventView::Failed(e) => ProgressView::Next(
                    PairingView::RollingBack { step: order.first_step(), cause: e },
                    ActionView::Rollback,
                ),
                EventView::Completed => ProgressView::Next(
                    PairingView::RollingBack { step: order.first_step(), cause: NO_ID_RETURNED@ },
                    ActionView::Rollback,
                ),
            },
            PairingView::InsertingSecond { order, first_id } => match event {
                EventView::Inserted(second_id) => {
                    let book_id = order.book_id(first_id, second_id);
                    let author_id = order.author_id(first_id, second_id);
                    ProgressView::Next(
                        PairingView::Associating { book_id, author_id },
                        ActionView::Associate { book_id, author_id },
                    )
                },
                EventView::Failed(e) => ProgressView::Next(
                    PairingView::RollingBack { step: order.second_step(), cause: e },
                    ActionView::Rollback,
                ),
                EventView::Completed => ProgressView::Next(
                    PairingView::RollingBack { step: order.second_step(), cause: NO_ID_RETURNED@ },
                    ActionView::Rollback,
                ),
            },
            PairingView::Associating { book_id, author_id } => match event {
                EventView::Failed(e) => ProgressView::Next(
                    PairingView::RollingBack { step: Step::Association, cause: e },
                    ActionView::Rollback,
                ),
                _ => ProgressView::Next(
                    PairingView::Committing { book_id, author_id },
                    ActionView::Commit,
                ),
            },
            PairingView::Committing { book_id, author_id } => match event {
                EventView::Failed(e) => ProgressView::Finished(
                    Err(TransactionErrorView::Commit(e)),
                ),
                _ => ProgressView::Finished(Ok((book_id, author_id))),
            },
            PairingView::RollingBack { step, cause } => match event {
                EventView::Failed(e) => ProgressView::Finished(
                    Err(TransactionErrorView::Rollback(e)),
                ),
                _ => ProgressView::Finished(Err(TransactionErrorView::Insertion { step, cause })),
            },
        }
    }
}

/// No statement of a transaction leads on but by its success, and none
/// fails without the transaction being rolled back or over:
///
/// - the commit follows only the link that was inserted;
/// - the two ids are the result only of a commit that completed;
/// - a rollback follows only an insertion that failed or gave no id;
/// - an insertion is the reported reason only after the rollback completed;
/// - a failure is followed by the rollback or ends the transaction with an
///   error.
pub proof fn lemma_failure_never_leads_on(pairing: PairingView, event: EventView)
    ensures
        ({
            let progress = pairing.after(event);
            &&& progress is Finished && progress->Finished_0 is Err
                && progress->Finished_0->Err_0 is Insertion ==> pairing is RollingBack && !(
            event is Failed)
            &&& progress is Next && progress->Next_1 == ActionView::Commit ==> pairing
                is Associating && !(event is Failed)
            &&& progress is Finished && progress->Finished_0 is Ok ==> pairing is Committing && !(
            event is Failed)
            &&& progress is Next && progress->Next_1 == ActionView::Rollback ==> {
                ||| pairing is Associating && event is Failed
                ||| (pairing is InsertingFirst || pairing is InsertingSecond) && !(event
                    is Inserted)
            }
            &&& event is Failed ==> (progress is Finished && progress->Finished_0 is Err) || (
            progress is Next && progress->Next_1 == ActionView::Rollback)
        }),
{
}

/// The failure that an answer to an insertion holds or amounts to.
fn failure_of(answer: Event) -> (cause: StorageError)
    requires
        !(answer is Inserted),
    ensures
        cause@ == match answer@ {
            EventView::Failed(e) => e,
            _ => NO_ID_RETURNED@,
        },
{
    match answer {
        Event::Failed(cause) => cause,
        _ => StorageError { message: NO_ID_RETURNED.to_owned() },
    }
}

impl Pairing {
    /// A transaction that is to create a book named `book_name`, an author
    /// named `author_name` and their link, with the statement to begin with.
    pub fn start(order: Order, book_name: &str, author_name: &str) -> (first: (Pairing, Action))
        ensures
            first.0@ == (PairingView::Beginning {
                order,
                book_name: book_name@,
                author_name: author_name@,
            }),
            first.1@ == ActionView::Begin,
    {
        let pairing = Pairing::Beginning {
            order,
            book_name: book_name.to_owned(),
            author_name: author_name.to_owned(),
        };
        (pairing, Action::Begin)
    }

    /// Takes the answer to the statement under way and tells what follows.
    pub fn step(self, event: Event) -> (progress: Progress)
        ensures
            progress@ == self@.after(event@),
    {
        match self {
            Pairing::Beginning { order, book_name, author_name } => match event {
                Event::Failed(e) => Progress::Finished(Err(TransactionError::Begin(e))),
                _ => match order {
                    Order::BookFirst => Progress::Next(
                        Pairing::InsertingFirst { order, second_name: author_name },
                        Action::InsertBook { name: book_name },
                    ),
                    Order::AuthorFirst => Progress::Next(
                        Pairing::InsertingFirst { order, second_name: book_name },
                        Action::InsertAuthor { name: author_name },
                    ),
                },
            },
            Pairing::InsertingFirst { order, second_name } => match event {
                Event::Inserted(first_id) => {
                    let action = match order {
                        Order::BookFirst => Action::InsertAuthor { name: second_name },
                        Order::AuthorFirst => Action::InsertBook { name: second_name },
                    };
                    Progress::Next(Pairing::InsertingSecond { order, first_id }, action)
                },
                answer => {
                    let step = match order {
                        Order::BookFirst => Step::Book,
                        Order::AuthorFirst => Step::Author,
                    };
                    Progress::Next(
                        Pairing::RollingBack { step, cause: failure_of(answer) },
                        Action::Rollback,
                    )
                },
            },
            Pairing::InsertingSecond { order, first_id } => match event {
                Event::Inserted(second_id) => {
                    let (book_id, author_id) = match order {
                        Order::BookFirst => (first_id, second_id),
                        Order::AuthorFirst => (second_id, first_id),
                    };
                    Progress::Next(
                        Pairing::Associating { book_id, author_id },
                        Action::Associate { book_id, author_id },
                    )
                },
                answer => {
                    let step = match order {
                        Order::BookFirst => Step::Author,
                        Order::AuthorFirst => Step::Book,
                    };
                    Progress::Next(
                        Pairing::RollingBack { step, cause: failure_of(answer) },
                        Action::Rollback,
                    )
                },
            },
            Pairing::Associating { book_id, author_id } => match event {
                Event::Failed(cause) => Progress::Next(
                    Pairing::RollingBack { step: Step::Association, cause },
                    Action::Rollback,
                ),
                _ => Progress::Next(Pairing::Committing { book_id, author_id }, Action::Commit),
            },
            Pairing::Committing { book_id, author_id } => match event {
                Event::Failed(e) => Progress::Finished(Err(TransactionError::Commit(e))),
                _ => Progress::Finished(Ok((book_id, author_id))),
            },
            Pairing::RollingBack { step, cause } => match event {
                Event::Failed(e) => Progress::Finished(Err(TransactionError::Rollback(e))),
                _ => Progress::Finished(Err(TransactionError::Insertion { step, cause })),
            },
        }
    }
}

impl StoreState {
    /// How the storage in memory answers a statement, and what it is
    /// afterwards. `marks` holds the lengths of the tables at the start of
    /// the transaction, to which a rollback cuts them back.
    pub(crate) open spec fn answer(self, marks: Marks, action: ActionView) -> (
        StoreState,
        EventView,
    ) {
        match action {
            ActionView::Begin => (self, EventView::Completed),
            ActionView::InsertBook { name } => if self.last_book_id < i32::MAX {
                (self.with_new_book(name), EventView::Inserted(self.next_book_id() as BookId))
            } else {
                (self, EventView::Failed(NO_BOOK_ID_LEFT@))
            },
            ActionView::InsertAuthor { name } => if self.last_author_id < i32::MAX {
                (self.with_new_author(name), EventView::Inserted(self.next_author_id() as AuthorId))
            } else {
                (self, EventView::Failed(NO_AUTHOR_ID_LEFT@))
            },
            ActionView::Associate { book_id, author_id } => if self.tables.takes_link(
                book_id,
                author_id,
            ) {
                (self.with_link(book_id, author_id), EventView::Completed)
            } else {
                (self, EventView::Failed(self.tables.refusal(book_id, author_id)))
            },
            ActionView::Commit => (self, EventView::Completed),
            ActionView::Rollback => (self.cut_back(marks), EventView::Completed),
        }
    }

    /// No id is left for the row that is inserted first.
    pub open spec fn first_exhausted(self, order: Order) -> bool {
        match order {
            Order::BookFirst => self.last_book_id == i32::MAX,
            Order::AuthorFirst => self.last_author_id == i32::MAX,
        }
    }

    /// No id is left for the row that is inserted second.
    pub open spec fn second_exhausted(self, order: Order) -> bool {
        match order {
            Order::BookFirst => self.last_author_id == i32::MAX,
            Order::AuthorFirst => self.last_book_id == i32::MAX,
        }
    }

    /// The storage after the id for the row that is inserted first was
    /// generated and no row was kept.
    pub open spec fn without_first_id(self, order: Order) -> StoreState {
        match order {
            Order::BookFirst => StoreState { last_book_id: self.next_book_id() as BookId, ..self },
            Order::AuthorFirst => StoreState {
                last_author_id: self.next_author_id() as AuthorId,
                ..self
            },
        }
    }

    /// What the creation of a linked book and author makes of the storage
    /// in memory, and how it ends.
    ///
    /// - Where an id is left for a book and one for an author, the storage
    ///   holds one more book, one more author and the link between the two,
    ///   under the next ids, which are the result.
    /// - Where none is left for the row that is inserted first, nothing
    ///   changes.
    /// - Where one is left for the first row and none for the second, the
    ///   id that the first row had is used up, and the rows are as before.
    pub open spec fn paired(self, order: Order, book_name: Seq<char>, author_name: Seq<char>) -> (
        StoreState,
        Result<(BookId, AuthorId), TransactionErrorView>,
    ) {
        if self.first_exhausted(order) {
            (
                self,
                Err(
                    TransactionErrorView::Insertion {
                        step: order.first_step(),
                        cause: no_id_left_for(order.first_step()),
                    },
                ),
            )
        } else if self.second_exhausted(order) {
            (
                self.without_first_id(order),
                Err(
                    TransactionErrorView::Insertion {
                        step: order.second_step(),
                        cause: no_id_left_for(order.second_step()),
                    },
                ),
            )
        } else {
            let book_id = self.next_book_id() as BookId;
            let author_id = self.next_author_id() as AuthorId;
            (
                self.with_new_book(book_name).with_new_author(author_name).with_link(
                    book_id,
                    author_id,
                ),
                Ok((book_id, author_id)),
            )
        }
    }
}

/// What the storage in memory says when no id is left for the row that
/// `step` inserts.
pub open spec fn no_id_left_for(step: Step) -> Seq<char> {
    match step {
        Step::Book => NO_BOOK_ID_LEFT@,
        _ => NO_AUTHOR_ID_LEFT@,
    }
}

impl Order {
    /// Of a book's name and an author's, the one of the row that is
    /// inserted first.
    pub open spec fn first_name(self, book_name: Seq<char>, author_name: Seq<char>) -> Seq<char> {
        match self {
            Order::BookFirst => book_name,
            Order::AuthorFirst => author_name,
        }
    }

    /// Of a book's name and an author's, the one of the row that is
    /// inserted second.
    pub open spec fn second_name(self, book_name: Seq<char>, author_name: Seq<char>) -> Seq<char> {
        match self {
            Order::BookFirst => author_name,
            Order::AuthorFirst => book_name,
        }
    }
}

/// The storage after the first of the two rows was inserted.
spec fn with_first(store: StoreState, order: Order, book_name: Seq<char>, author_name: Seq<char>)
    -> StoreState {
    match order {
        Order::BookFirst => store.with_new_book(book_name),
        Order::AuthorFirst => store.with_new_author(author_name),
    }
}

/// The statements that a transaction in the state `pairing` has still to
/// make, at most.
spec fn remaining(pairing: PairingView) -> nat {
    match pairing {
        PairingView::Beginning { .. } => 5,
        PairingView::InsertingFirst { .. } => 4,
        PairingView::InsertingSecond { .. } => 3,
        PairingView::Associating { .. } => 2,
        PairingView::Committing { .. } => 1,
        PairingView::RollingBack { .. } => 1,
    }
}

/// What holds between the statements of a transaction on the storage in
/// memory: `begin` is the storage at the start, `now` the storage as it is,
/// `pairing` the state of the transaction and `action` the statement that
/// is under way.
spec fn on_track(
    begin: StoreState,
    now: StoreState,
    marks: Marks,
    pairing: PairingView,
    action: ActionView,
    order: Order,
    book_name: Seq<char>,
    author_name: Seq<char>,
) -> bool {
    let book_id = begin.next_book_id() as BookId;
    let author_id = begin.next_author_id() as AuthorId;
    &&& begin.consistent()
    &&& now.consistent()
    &&& begin.is_marked_by(marks)
    &&& match pairing {
        PairingView::Beginning { order: o, book_name: b, author_name: a } => {
            &&& o == order
            &&& b == book_name
            &&& a == author_name
            &&& action == ActionView::Begin
            &&& now == begin
        },
        PairingView::InsertingFirst { order: o, second_name } => {
            &&& o == order
            &&& second_name == order.second_name(book_name, author_name)
            &&& action == order.first_insertion(order.first_name(book_name, author_name))
            &&& now == begin
        },
        PairingView::InsertingSecond { order: o, first_id } => {
            &&& o == order
            &&& !begin.first_exhausted(order)
            &&& first_id == match order {
                Order::BookFirst => book_id,
                Order::AuthorFirst => author_id,
            }
            &&& action == order.second_insertion(order.second_name(book_name, author_name))
            &&& now == with_first(begin, order, book_name, author_name)
        },
        PairingView::Associating { book_id: b, author_id: a } => {
            &&& !begin.first_exhausted(order)
            &&& !begin.second_exhausted(order)
            &&& b == book_id
            &&& a == author_id
            &&& action == (ActionView::Associate { book_id, author_id })
            &&& now == begin.with_new_book(book_name).with_new_author(author_name)
        },
        PairingView::Committing { book_id: b, author_id: a } => {
            &&& !begin.first_exhausted(order)
            &&& !begin.second_exhausted(order)
            &&& b == book_id
            &&& a == author_id
            &&& action == ActionView::Commit
            &&& now == begin.paired(order, book_name, author_name).0
        },
        PairingView::RollingBack { step, cause } => {
            &&& action == ActionView::Rollback
            &&& cause == no_id_left_for(step)
            &&& if begin.first_exhausted(order) {
                step == order.first_step() && now == begin
            } else {
                &&& begin.second_exhausted(order)
                &&& step == order.second_step()
                &&& now == with_first(begin, order, book_name, author_name)
            }
        },
    }
}

/// Carries out a statement on the storage in memory.
fn perform(store: &mut Store, marks: Marks, action: &Action) -> (event: Event)
    requires
        old(store)@.consistent(),
        action is Rollback ==> {
            &&& marks.books <= old(store)@.tables.books.len()
            &&& marks.authors <= old(store)@.tables.authors.len()
            &&& marks.book_authors <= old(store)@.tables.book_authors.len()
            &&& old(store)@.cut_back(marks).consistent()
        },
    ensures
        final(store)@.consistent(),
        (final(store)@, event@) == old(store)@.answer(marks, action@),
{
    match action {
        Action::Begin => Event::Completed,
        Action::InsertBook { name } => match create_book(store, name.as_str()) {
            Ok(book_id) => Event::Inserted(book_id),
            Err(error) => Event::Failed(error),
        },
        Action::InsertAuthor { name } => match create_author(store, name.as_str()) {
            Ok(author_id) => Event::Inserted(author_id),
            Err(error) => Event::Failed(error),
        },
        Action::Associate { book_id, author_id } => match store.associate(*book_id, *author_id) {
            Ok(_) => Event::Completed,
            Err(error) => Event::Failed(error),
        },
        Action::Commit => Event::Completed,
        Action::Rollback => {
            store.rewind(marks);
            Event::Completed
        },
    }
}

/// Creates a book named `book_name`, an author named `author_name` and the
/// link between the two in the storage in memory, all three or none: the
/// rows are inserted in the given order inside one transaction, which is
/// rolled back when an insertion fails.
///
/// Returns the id of the book and the id of the author.
pub fn pair(store: &mut Store, order: Order, book_name: &str, author_name: &str) -> (paired: Result<
    (BookId, AuthorId),
    TransactionError,
>)
    requires
        old(store)@.consistent(),
    ensures
        final(store)@.consistent(),
        final(store)@ == old(store)@.paired(order, book_name@, author_name@).0,
        match paired {
            Ok(ids) => old(store)@.paired(order, book_name@, author_name@).1 == Ok::<
                (BookId, AuthorId),
                TransactionErrorView,
            >(ids),
            Err(error) => old(store)@.paired(order, book_name@, author_name@).1 == Err::<
                (BookId, AuthorId),
                TransactionErrorView,
            >(error@),
        },
{
    let marks = store.marks();
    let (mut pairing, mut action) = Pairing::start(order, book_name, author_name);
    loop
        invariant
            on_track(
                old(store)@,
                store@,
                marks,
                pairing@,
                action@,
                order,
                book_name@,
                author_name@,
            ),
        decreases remaining(pairing@),
    {
        let ghost begin = old(store)@;
        let ghost before = store@;
        proof {
            if action is Rollback {
                let cut = before.cut_back(marks);
                assert(cut.tables.books =~= begin.tables.books);
                assert(cut.tables.authors =~= begin.tables.authors);
                assert(cut.tables.book_authors =~= begin.tables.book_authors);
            }
        }
        let event = perform(store, marks, &action);
        proof {
            if action@ is Associate {
                lemma_new_rows_are_held(begin, book_name@, author_name@);
            }
        }
        match pairing.step(event) {
            Progress::Next(next_pairing, next_action) => {
                pairing = next_pairing;
                action = next_action;
            },
            Progress::Finished(paired) => {
                return paired;
            },
        }
    }
}

/// After a book and an author were inserted under the next ids, the
/// storage takes the link between the two: it holds a book and an author
/// of these ids, and no link that names them.
proof fn lemma_new_rows_are_held(store: StoreState, book_name: Seq<char>, author_name: Seq<char>)
    requires
        store.consistent(),
        store.last_book_id < i32::MAX,
        store.last_author_id < i32::MAX,
    ensures
        ({
            let after = store.with_new_book(book_name).with_new_author(author_name);
            &&& after.tables.takes_link(
                store.next_book_id() as BookId,
                store.next_author_id() as AuthorId,
            )
            &&& after == store.with_new_author(author_name).with_new_book(book_name)
        }),
{
    let after = store.with_new_book(book_name).with_new_author(author_name);
    let link = BookAuthor {
        book_id: store.next_book_id() as BookId,
        author_id: store.next_author_id() as AuthorId,
    };
    if store.tables.book_authors.contains(link) {
        crate::books::lemma_book_is_absent(store, link.book_id);
    }
    assert(crate::books::book_at(
        after.tables.books,
        store.tables.books.len() as int,
        store.next_book_id() as BookId,
    ));
    assert(crate::authors::author_at(
        after.tables.authors,
        store.tables.authors.len() as int,
        store.next_author_id() as AuthorId,
    ));
}

/// On the storage in memory the creation of a linked book and author is
/// all or nothing: with the two ids as the result, the rows are those of
/// before with the book, the author and their link; with an error, the rows
/// are those of before.
pub proof fn lemma_paired_is_all_or_nothing(
    store: StoreState,
    order: Order,
    book_name: Seq<char>,
    author_name: Seq<char>,
)
    ensures
        match store.paired(order, book_name, author_name).1 {
            Ok(ids) => store.paired(order, book_name, author_name).0.tables == with_pair(
                store.tables,
                ids.0,
                book_name,
                ids.1,
                author_name,
            ),
            Err(_) => store.paired(order, book_name, author_name).0.tables == store.tables,
        },
{
}

/// What a storage with transactions holds, as its one client sees it: the
/// rows that are durable and, while a transaction is open, the rows as the
/// transaction has them.
pub struct Ledger {
    pub durable: Tables,
    pub pending: Option<Tables>,
}

impl Ledger {
    /// Whether `next` can be what the storage holds after it has answered
    /// the statement `action` with `event`. This is what the transactions
    /// of this library expect of a storage:
    ///
    /// - a transaction that was begun has the durable rows;
    /// - an insertion adds its row to the rows of the transaction, under
    ///   the id that the storage reports where it generates one;
    /// - a commit makes the rows of the transaction the durable ones, and a
    ///   rollback drops them; either ends the transaction;
    /// - a statement that failed has changed nothing, with two exceptions:
    ///   a commit that failed has made the rows of the transaction durable
    ///   or has left the durable rows as they were, and of a rollback that
    ///   failed nothing is known;
    /// - an insertion that was answered without the id that it generates
    ///   has changed nothing that is durable.
    pub open spec fn allows(self, action: ActionView, event: EventView, next: Ledger) -> bool {
        match action {
            ActionView::Begin => match event {
                EventView::Failed(_) => next == self,
                _ => next == (Ledger { durable: self.durable, pending: Some(self.durable) }),
            },
            ActionView::InsertBook { name } => match event {
                EventView::Inserted(book_id) => next == (Ledger {
                    durable: self.durable,
                    pending: Some(self.pending->0.with_book(book_id, name)),
                }),
                EventView::Failed(_) => next == self,
                EventView::Completed => next.durable == self.durable,
            },
            ActionView::InsertAuthor { name } => match event {
                EventView::Inserted(author_id) => next == (Ledger {
                    durable: self.durable,
                    pending: Some(self.pending->0.with_author(author_id, name)),
                }),
                EventView::Failed(_) => next == self,
                EventView::Completed => next.durable == self.durable,
            },
            ActionView::Associate { book_id, author_id } => match event {
                EventView::Failed(_) => next == self,
                _ => next == (Ledger {
                    durable: self.durable,
                    pending: Some(self.pending->0.with_link(book_id, author_id)),
                }),
            },
            ActionView::Commit => match event {
                EventView::Failed(_) => next.durable == self.durable || next.durable
                    == self.pending->0,
                _ => next == (Ledger { durable: self.pending->0, pending: None }),
            },
            ActionView::Rollback => match event {
                EventView::Failed(_) => true,
                _ => next == (Ledger { durable: self.durable, pending: None }),
            },
        }
    }
}

/// A transaction in the state `pairing`, with `action` under way on a
/// storage that holds `ledger`, comes to its end with `result`: `events`
/// are the answers of the storage to the statements from `action` on, and
/// `ledgers` is what the storage holds after each of them.
pub open spec fn completes(
    pairing: PairingView,
    action: ActionView,
    ledger: Ledger,
    events: Seq<EventView>,
    ledgers: Seq<Ledger>,
    result: Result<(BookId, AuthorId), TransactionErrorView>,
) -> bool
    decreases events.len(),
{
    &&& events.len() > 0
    &&& events.len() == ledgers.len()
    &&& ledger.allows(action, events[0], ledgers[0])
    &&& match pairing.after(events[0]) {
        ProgressView::Finished(finished) => events.len() == 1 && finished == result,
        ProgressView::Next(next_pairing, next_action) => completes(
            next_pairing,
            next_action,
            ledgers[0],
            events.skip(1),
            ledgers.skip(1),
            result,
        ),
    }
}

/// The rows `begin` with a book, an author and the link between the two.
pub open spec fn with_pair(
    begin: Tables,
    book_id: BookId,
    book_name: Seq<char>,
    author_id: AuthorId,
    author_name: Seq<char>,
) -> Tables {
    begin.with_book(book_id, book_name).with_author(author_id, author_name).with_link(
        book_id,
        author_id,
    )
}

/// What is durable when a transaction that began on the durable rows
/// `begin` is over with `result`: all three rows or none of them.
///
/// - With the two ids as the result, the durable rows are those of before
///   with the book, the author and their link.
/// - Where no transaction could be begun, or an insertion failed and the
///   transaction was rolled back, the durable rows are those of before.
/// - Where the commit failed, they are the one or the other.
/// - Where the rollback failed, nothing is said.
pub open spec fn all_or_nothing(
    begin: Tables,
    book_name: Seq<char>,
    author_name: Seq<char>,
    durable: Tables,
    result: Result<(BookId, AuthorId), TransactionErrorView>,
) -> bool {
    match result {
        Ok(ids) => durable == with_pair(begin, ids.0, book_name, ids.1, author_name),
        Err(TransactionErrorView::Begin(_)) => durable == begin,
        Err(TransactionErrorView::Insertion { .. }) => durable == begin,
        Err(TransactionErrorView::Commit(_)) => durable == begin || exists|
            book_id: BookId,
            author_id: AuthorId,
        | durable == with_pair(begin, book_id, book_name, author_id, author_name),
        Err(TransactionErrorView::Rollback(_)) => true,
    }
}

/// What the storage holds while a transaction that began on the durable
/// rows `begin` is in the state `pairing` with `action` under way.
spec fn in_step(
    pairing: PairingView,
    action: ActionView,
    ledger: Ledger,
    begin: Tables,
    order: Order,
    book_name: Seq<char>,
    author_name: Seq<char>,
) -> bool {
    &&& ledger.durable == begin
    &&& match pairing {
        PairingView::Beginning { order: o, book_name: b, author_name: a } => {
            &&& o == order
            &&& b == book_name
            &&& a == author_name
            &&& action == ActionView::Begin
        },
        PairingView::InsertingFirst { order: o, second_name } => {
            &&& o == order
            &&& second_name == order.second_name(book_name, author_name)
            &&& action == order.first_insertion(order.first_name(book_name, author_name))
            &&& ledger.pending == Some(begin)
        },
        PairingView::InsertingSecond { order: o, first_id } => {
            &&& o == order
            &&& action == order.second_insertion(order.second_name(book_name, author_name))
            &&& ledger.pending == Some(
                match order {
                    Order::BookFirst => begin.with_book(first_id, book_name),
                    Order::AuthorFirst => begin.with_author(first_id, author_name),
                },
            )
        },
        PairingView::Associating { book_id, author_id } => {
            &&& action == (ActionView::Associate { book_id, author_id })
            &&& ledger.pending == Some(
                begin.with_book(book_id, book_name).with_author(author_id, author_name),
            )
        },
        PairingView::Committing { book_id, author_id } => {
            &&& action == ActionView::Commit
            &&& ledger.pending == Some(
                with_pair(begin, book_id, book_name, author_id, author_name),
            )
        },
        PairingView::RollingBack { .. } => action == ActionView::Rollback,
    }
}

/// From any of its states the transaction ends with all three rows durable
/// or none.
proof fn lemma_atomic_from(
    pairing: PairingView,
    action: ActionView,
    ledger: Ledger,
    events: Seq<EventView>,
    ledgers: Seq<Ledger>,
    result: Result<(BookId, AuthorId), TransactionErrorView>,
    begin: Tables,
    order: Order,
    book_name: Seq<char>,
    author_name: Seq<char>,
)
    requires
        in_step(pairing, action, ledger, begin, order, book_name, author_name),
        !(pairing is Beginning) || ledger.pending is None,
        completes(pairing, action, ledger, events, ledgers, result),
    ensures
        all_or_nothing(begin, book_name, author_name, ledgers.last().durable, result),
        forall|i: int| 0 <= i < ledgers.len() - 1 ==> (#[trigger] ledgers[i]).durable == begin,
    decreases events.len(),
{
    let event = events[0];
    let next = ledgers[0];
    match pairing.after(event) {
        ProgressView::Finished(finished) => {
            if pairing is Committing && event is Failed {
                let book_id = pairing->Committing_book_id;
                let author_id = pairing->Committing_author_id;
                if next.durable != begin {
                    assert(next.durable == with_pair(
                        begin,
                        book_id,
                        book_name,
                        author_id,
                        author_name,
                    ));
                }
            }
        },
        ProgressView::Next(next_pairing, next_action) => {
            assert(ledgers.skip(1).len() > 0) by {
                reveal_with_fuel(completes, 2);
            }
            assert(in_step(
                next_pairing,
                next_action,
                next,
                begin,
                order,
                book_name,
                author_name,
            ));
            lemma_atomic_from(
                next_pairing,
                next_action,
                next,
                events.skip(1),
                ledgers.skip(1),
                result,
                begin,
                order,
                book_name,
                author_name,
            );
            assert forall|i: int| 0 <= i < ledgers.len() - 1 implies (#[trigger] ledgers[i]).durable
                == begin by {
                if i > 0 {
                    assert(ledgers[i] == ledgers.skip(1)[i - 1]);
                }
            }
        },
    }
}

/// The creation of a linked book and author is all or nothing, whatever
/// fails and whenever: on a storage that answers as [`Ledger::allows`]
/// says, a transaction that is carried out from its beginning to its end
/// leaves all three rows durable or none of them. In particular, where the
/// insertion of the link fails after the book and the author were inserted
/// and the rollback completes, neither the book nor the author is durable.
///
/// Nothing is durable in part on the way either: before the last statement
/// is answered, the durable rows are those of before.
pub proof fn lemma_pairing_is_all_or_nothing(
    order: Order,
    book_name: Seq<char>,
    author_name: Seq<char>,
    ledger: Ledger,
    events: Seq<EventView>,
    ledgers: Seq<Ledger>,
    result: Result<(BookId, AuthorId), TransactionErrorView>,
)
    requires
        ledger.pending is None,
        completes(
            PairingView::Beginning { order, book_name, author_name },
            ActionView::Begin,
            ledger,
            events,
            ledgers,
            result,
        ),
    ensures
        all_or_nothing(ledger.durable, book_name, author_name, ledgers.last().durable, result),
        forall|i: int|
            0 <= i < ledgers.len() - 1 ==> (#[trigger] ledgers[i]).durable == ledger.durable,
{
    lemma_atomic_from(
        PairingView::Beginning { order, book_name, author_name },
        ActionView::Begin,
        ledger,
        events,
        ledgers,
        result,
        ledger.durable,
        order,
        book_name,
        author_name,
    );
}

} // verus!
