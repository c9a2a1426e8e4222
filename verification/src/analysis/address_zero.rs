//! Comparisons with `address(0)`, which assembly does more cheaply.
use vstd::prelude::*;
use crate::analysis::{printed_at_if, DefCtx, Output};
use crate::ast::{BinaryOperation, Expression, FunctionCallKind};
use crate::query::{is_address_type, is_address_type_expression, opt_view};
use crate::render::{definition_node_location, location_text, node_text, spec_node_text, AnalysisError};
use crate::text::str_eq;

verus! {

/// `address(0)`: a type conversion to `address` of the literal `0`.
pub open spec fn spec_is_address_zero(e: Expression) -> bool {
    &&& e matches Expression::FunctionCall(f)
    &&& f.kind == FunctionCallKind::TypeConversion
    &&& f.arguments@.len() == 1
    &&& is_address_type(*f.expression)
    &&& f.arguments@[0] matches Expression::Literal(l)
    &&& opt_view(l.value) == Some("0"@)
}

pub fn is_address_zero(e: &Expression) -> (r: bool)
    ensures
        r == spec_is_address_zero(*e),
{
    match e {
        Expression::FunctionCall(f) => {
            if f.kind != FunctionCallKind::TypeConversion || f.arguments.len() != 1 || !is_address_type_expression(&f.expression) {
                return false;
            }
            match &f.arguments[0] {
                Expression::Literal(l) => match &l.value {
                    Some(v) => str_eq(v.as_str(), "0"),
                    None => false,
                },
                _ => false,
            }
        },
        _ => false,
    }
}

/// An equality test with `address(0)` on either side.
pub open spec fn spec_compares_address_zero(b: BinaryOperation) -> bool {
    (b.operator@ == "=="@ || b.operator@ == "!="@) && (spec_is_address_zero(*b.left_expression)
        || spec_is_address_zero(*b.right_expression))
}

pub struct AddressZeroVisitor {}

impl AddressZeroVisitor {
    pub fn new() -> Self {
        AddressZeroVisitor {}
    }

    pub fn visit_binary_operation(&mut self, ctx: &DefCtx, b: &BinaryOperation, out: &mut Output) -> (r: Result<(), AnalysisError>)
        requires
            old(out).wf(),
        ensures
            final(out).wf(),
            old(out).extends(*final(out)),
            printed_at_if(
                *old(out),
                *final(out),
                *ctx.unit,
                b.info.src@,
                spec_compares_address_zero(*b),
                location_text(*ctx.contract, *ctx.node) + " contains `"@ + spec_node_text(*ctx.unit, b.info.src@)
                    + "` usage, which can be optimized with assembly: `assembly { if iszero(addr) { ... } }`"@,
                r is Ok,
            ),
    {
        proof { Output::lemma_extends_refl(*out); }
        if (str_eq(b.operator.as_str(), "==") || str_eq(b.operator.as_str(), "!=")) && (is_address_zero(
            &b.left_expression,
        ) || is_address_zero(&b.right_expression)) {
            let msg = definition_node_location(ctx.contract, ctx.node).concat(" contains `").concat(
                node_text(ctx.unit, b.info.src.as_str()).as_str(),
            ).concat("` usage, which can be optimized with assembly: `assembly { if iszero(addr) { ... } }`");
            return out.print_at(ctx.unit, b.info.src.as_str(), msg);
        }
        Ok(())
    }
}

} // verus!
