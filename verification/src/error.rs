use vstd::prelude::*;

verus! {

/// A failure reported by the storage: a violated constraint, a lost
/// connection, an exhausted id range. It carries the storage's own words.
#[derive(Debug, Clone, PartialEq, Eq)]
pub struct StorageError {
    pub message: String,
}

impl View for StorageError {
    type V = Seq<char>;

    open spec fn view(&self) -> Seq<char> {
        self.message@
    }
}

/// The insertions that make up the creation of a linked book and author.
#[derive(Debug, Clone, Copy, PartialEq, Eq, Structural)]
pub enum Step {
    /// The row of the `books` table.
    Book,
    /// The row of the `authors` table.
    Author,
    /// The row of the `book_authors` table that links the two.
    Association,
}

/// Why the creation of a linked book and author did not take place.
#[derive(Debug, Clone, PartialEq, Eq)]
pub enum TransactionError {
    /// No transaction could be started; nothing was attempted.
    Begin(StorageError),
    /// An insertion failed and the transaction was rolled back.
    Insertion { step: Step, cause: StorageError },
    /// An insertion failed and the rollback failed too: the state of the
    /// storage is not known. The value is the failure of the rollback.
    Rollback(StorageError),
    /// Every insertion succeeded but the commit failed.
    Commit(StorageError),
}

/// Mathematical value of a [`TransactionError`].
pub enum TransactionErrorView {
    Begin(Seq<char>),
    Insertion { step: Step, cause: Seq<char> },
    Rollback(Seq<char>),
    Commit(Seq<char>),
}

impl View for TransactionError {
    type V = TransactionErrorView;

    open spec fn view(&self) -> TransactionErrorView {
        match self {
            TransactionError::Begin(e) => TransactionErrorView::Begin(e@),
            TransactionError::Insertion { step, cause } => TransactionErrorView::Insertion {
                step: *step,
                cause: cause@,
            },
            TransactionError::Rollback(e) => TransactionErrorView::Rollback(e@),
            TransactionError::Commit(e) => TransactionErrorView::Commit(e@),
        }
    }
}

} // verus!
