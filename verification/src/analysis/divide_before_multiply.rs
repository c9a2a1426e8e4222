//! Multiplications of the result of a division.
use vstd::prelude::*;
use crate::analysis::{reported_at_if, DefCtx, Output};
use crate::ast::{BinaryOperation, Expression};
use crate::query::{contains_op, contains_operation};
use crate::render::{definition_node_location, location_text, AnalysisError};
use crate::text::str_eq;

verus! {

/// A `*` whose left operand is an operation that holds a `/`.
pub open spec fn spec_divide_before_multiply(b: BinaryOperation) -> bool {
    &&& b.operator@ == "*"@
    &&& *b.left_expression is BinaryOperation
    &&& contains_op(*b.left_expression, "/"@)
}

pub fn is_divide_before_multiply(b: &BinaryOperation) -> (r: bool)
    ensures
        r == spec_divide_before_multiply(*b),
{
    str_eq(b.operator.as_str(), "*") && matches!(*b.left_expression, Expression::BinaryOperation(_))
        && contains_operation(&b.left_expression, "/")
}

pub struct DivideBeforeMultiplyVisitor {}

impl DivideBeforeMultiplyVisitor {
    pub fn new() -> Self {
        DivideBeforeMultiplyVisitor {}
    }

    pub fn visit_binary_operation(&mut self, ctx: &DefCtx, b: &BinaryOperation, out: &mut Output) -> (r: Result<(), AnalysisError>)
        requires
            old(out).wf(),
        ensures
            final(out).wf(),
            old(out).extends(*final(out)),
            reported_at_if(
                *old(out),
                *final(out),
                *ctx.unit,
                b.info.src@,
                spec_divide_before_multiply(*b),
                location_text(*ctx.contract, *ctx.node) + " performs a multiplication on the result of a division"@,
                r is Ok,
            ),
    {
        proof { Output::lemma_extends_refl(*out); }
        if is_divide_before_multiply(b) {
            let msg = definition_node_location(ctx.contract, ctx.node).concat(
                " performs a multiplication on the result of a division",
            );
            return out.add_at(ctx.unit, b.info.src.as_str(), msg);
        }
        Ok(())
    }
}

} // verus!
