//! Bulk error collection: evaluate every independent fallible sub-computation
//! of an expression and report all of their failures at once, rather than
//! stopping at the first.
//!
//! An expression tree ([`expr::Expr`]) marks its may-fail points; the
//! rewriter ([`rewrite::transform`]) turns it into a plan that runs every
//! sibling whatever became of the others, and [`rewrite::run`] evaluates that
//! plan against a fresh [`group::ErrorGroup`]. Beside it stand a few tools
//! built on the same group: batches of checks over one value, splitting a
//! mapped list into values and errors, Kleisli composition of results, and an
//! indenting line formatter.

pub mod batch;
pub mod eval;
pub mod expr;
pub mod group;
pub mod laws;
pub mod logger;
pub mod monadic;
pub mod rewrite;
pub mod split;
pub mod value;
