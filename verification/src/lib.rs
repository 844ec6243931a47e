//! An interval tree: closed intervals with a payload, kept in an AVL tree
//! by their starts, where every node knows the largest end below it. The
//! intervals that cover a point are found in time proportional to the
//! height of the tree and the number of matches.
//!
//! Coordinates are 64-bit integers. The contracts speak of a tree's items
//! as a sequence of [`Span`]s sorted by start, and of its structure as a
//! [`Shape`].

pub mod balance;
pub mod coordinate;
pub mod growth;
pub mod interval;
pub mod order;
pub mod outline;
pub mod search;
pub mod shape;
pub mod text;
pub mod tree;

pub use interval::{Interval, Span};
pub use outline::{Branch, Row, RowView};
pub use shape::Shape;
pub use tree::IntervalTree;
