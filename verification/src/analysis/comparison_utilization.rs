//! Comparisons whose operand is not used in the branches they guard: a check
//! that has no finding to make yet.
use vstd::prelude::*;
use crate::ast::IfStatement;

verus! {

pub struct ComparisonUtilizationVisitor {}

impl ComparisonUtilizationVisitor {
    pub fn new() -> Self {
        ComparisonUtilizationVisitor {}
    }

    /// Looks at an `if` statement; no finding is made.
    pub fn visit_if_statement(&mut self, st: &IfStatement) {
    }
}

} // verus!
