//! `a[i] = a[j] <op> x`, which a compound assignment writes more cheaply.
use vstd::prelude::*;
use crate::analysis::{reported_at_if, DefCtx, Output};
use crate::ast::{Assignment, Expression};
use crate::query::{expr_info, info_of, same_expr, same_expression};
use crate::render::{definition_node_location, location_text, node_text, spec_node_text, AnalysisError};
use crate::text::str_eq;

verus! {

pub open spec fn is_compound_op(op: Seq<char>) -> bool {
    op == "+"@ || op == "-"@ || op == "*"@ || op == "/"@ || op == "%"@ || op == "<<"@ || op == ">>"@
        || op == "&"@ || op == "|"@ || op == "^"@
}

pub fn is_compound_operator(op: &str) -> (r: bool)
    ensures
        r == is_compound_op(op@),
{
    str_eq(op, "+") || str_eq(op, "-") || str_eq(op, "*") || str_eq(op, "/") || str_eq(op, "%") || str_eq(op, "<<")
        || str_eq(op, ">>") || str_eq(op, "&") || str_eq(op, "|") || str_eq(op, "^")
}

/// `x[i] = y[j] <op> z` with `x` and `y` the same and `<op>` one that has a
/// compound assignment.
pub open spec fn spec_inefficient_array_assignment(a: Assignment) -> bool {
    &&& a.operator@ == "="@
    &&& *a.left_hand_side matches Expression::IndexAccess(l)
    &&& *a.right_hand_side matches Expression::BinaryOperation(b)
    &&& is_compound_op(b.operator@)
    &&& *b.left_expression matches Expression::IndexAccess(r)
    &&& same_expr(*l.base_expression, *r.base_expression)
}

pub fn is_inefficient_array_assignment(a: &Assignment) -> (r: bool)
    ensures
        r == spec_inefficient_array_assignment(*a),
{
    if !str_eq(a.operator.as_str(), "=") {
        return false;
    }
    match (&*a.left_hand_side, &*a.right_hand_side) {
        (Expression::IndexAccess(l), Expression::BinaryOperation(b)) => {
            if !is_compound_operator(b.operator.as_str()) {
                return false;
            }
            match &*b.left_expression {
                Expression::IndexAccess(r) => same_expression(&l.base_expression, &r.base_expression),
                _ => false,
            }
        },
        _ => false,
    }
}

pub struct ArrayAssignmentVisitor {}

impl ArrayAssignmentVisitor {
    pub fn new() -> Self {
        ArrayAssignmentVisitor {}
    }

    pub fn visit_assignment(&mut self, ctx: &DefCtx, a: &Assignment, out: &mut Output) -> (r: Result<(), AnalysisError>)
        requires
            old(out).wf(),
        ensures
            final(out).wf(),
            old(out).extends(*final(out)),
            reported_at_if(
                *old(out),
                *final(out),
                *ctx.unit,
                a.info.src@,
                spec_inefficient_array_assignment(*a),
                match (*a.left_hand_side, *a.right_hand_side) {
                    (Expression::IndexAccess(l), Expression::BinaryOperation(b)) => location_text(*ctx.contract, *ctx.node)
                        + " contains an inefficient array assignment which can be optimized to `"@ + spec_node_text(
                        *ctx.unit,
                        l.info.src@,
                    ) + " "@ + b.operator@ + "= "@ + spec_node_text(*ctx.unit, info_of(*b.right_expression).src@) + ";`"@,
                    _ => Seq::empty(),
                },
                r is Ok,
            ),
    {
        proof { Output::lemma_extends_refl(*out); }
        if is_inefficient_array_assignment(a) {
            if let (Expression::IndexAccess(l), Expression::BinaryOperation(b)) = (&*a.left_hand_side, &*a.right_hand_side) {
                let msg = definition_node_location(ctx.contract, ctx.node).concat(
                    " contains an inefficient array assignment which can be optimized to `",
                ).concat(node_text(ctx.unit, l.info.src.as_str()).as_str()).concat(" ").concat(b.operator.as_str()).concat(
                    "= ",
                ).concat(node_text(ctx.unit, expr_info(&b.right_expression).src.as_str()).as_str()).concat(";`");
                return out.add_at(ctx.unit, a.info.src.as_str(), msg);
            }
        }
        Ok(())
    }
}

} // verus!
