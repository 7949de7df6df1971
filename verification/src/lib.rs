//! A graph-reduction evaluator for a small lazy first-order functional
//! language: named top-level combinator definitions built from variables,
//! integer literals, application and a fixed set of strict binary primitive
//! operators. The compiler turns a definition list into a table of graph
//! templates; the reducer evaluates the entry point by normal-order graph
//! reduction with update-in-place sharing.

pub mod ast;
pub mod compiler;
pub mod graph;
pub mod prelude;
pub mod reducer;
