//! A declarative decision engine. Named rules, each a tree of predicates
//! over paths into a context, are evaluated against the caller's data to
//! find the rules that the data satisfies.
//!
//! - [`Value`] is the dynamic leaf that comparisons are made in.
//! - [`context::Context`] resolves a dot-delimited path to a value.
//! - [`Decision`] is the outcome of a predicate, with the two
//!   short-circuiting folds over fallible outcomes.
//! - [`Operator`] is a predicate: `all`, `any`, `equals`, `notEquals`.
//! - [`Rule`] and [`Rules`] name operators and search them in the ascending
//!   order of the names.
//!
//! Every function carries a contract over the models of these types, and
//! the laws that relate the functions are proof functions beside them.

pub mod context;
pub mod convert;
pub mod decision;
pub mod operator;
pub mod order;
pub mod rule;
pub mod value;

pub use decision::Decision;
pub use operator::{Operate, Operator};
pub use rule::{Rule, Rules};
pub use value::{ToValue, Value, ValueView};
