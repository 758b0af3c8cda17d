//! A directory-tree search library.
//!
//! A tree of [`INode`] values models a filesystem subtree. A [`FileSystem`]
//! owns such a tree and answers queries: given an ordered set of predicates
//! ([`Filter`]), it returns the names of the entries below the root that
//! satisfy at least one of them, in traversal order.
//!
//! Every function is verified against a mathematical model of the tree
//! ([`NodeView`]); the general facts that relate the functions to one another
//! are stated and proved in [`laws`].
pub mod args;
pub mod filesystem;
pub mod filter;
pub mod laws;
pub mod node;

pub use args::{parse_filter_args, Args};
pub use filesystem::FileSystem;
pub use filter::{DateFilter, ExtensionFilter, Filter, Predicate, Rule, SizeFilter};
pub use node::{INode, NodeView};
