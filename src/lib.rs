//! A lending registry: a catalog of books, a registry of members, and a
//! ledger of loans that enforces copy capacity and due dates.
pub mod catalog;
pub mod laws;
pub mod ledger;
pub mod membership;

pub use catalog::{category_from_name, Book, Catalog, Category, Location};
pub use ledger::{AppLibrary, LendingError, Loan, LOAN_PERIOD};
pub use membership::{Membership, User};
