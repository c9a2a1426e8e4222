//! Static analysis of Solidity syntax trees.
//!
//! The library holds its own model of a Solidity syntax tree (`ast`), the
//! report that analyses fill (`report`), text helpers with exact contracts
//! (`text`), queries over a set of source units (`query`) and the analyses.
use vstd::prelude::*;

pub mod ast;
pub mod text;
pub mod report;
pub mod query;
pub mod render;
pub mod wide;
pub mod comments;
pub mod project;
pub mod todo_list;
pub mod analysis;

verus! {

} // verus!
