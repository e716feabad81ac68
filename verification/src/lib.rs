//! A bookstore's data layer: books, authors, and the links that say who
//! wrote what.
//!
//! - [`books`] and [`authors`] hold the rows of the two tables, the
//!   operations on them, and the gathering of the rows of a join into books
//!   with their authors and authors with their books.
//! - [`store`] holds the three tables in memory.
//! - [`transaction`] creates a book, an author and their link, all three or
//!   none. It decides which statement comes next and leaves the carrying out
//!   to whoever holds the storage, so that the same rules serve the storage
//!   in memory and a database.
//! - [`seeds`] loads a fixture in the same manner.
//! - [`error`] holds the failures.

pub mod authors;
pub mod books;
pub mod error;
pub mod seeds;
mod seqs;
pub mod store;
pub mod transaction;
