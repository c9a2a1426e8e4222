//! Calls of payable functions that send no value.
use vstd::prelude::*;
use crate::analysis::{reported_at_if, DefCtx, Output};
use crate::ast::{Expression, FunctionCall, SourceUnit};
use crate::query::{function_with_property, some_function_with, FunctionProperty};
use crate::render::{definition_node_location, location_text, node_text, spec_node_text, AnalysisError};

verus! {

/// A call whose callee is an identifier, or a member access with a
/// declaration, that refers to a payable function.
pub open spec fn spec_calls_payable(units: Seq<SourceUnit>, call: FunctionCall) -> bool {
    match *call.expression {
        Expression::Identifier(i) => some_function_with(units, i.referenced_declaration, FunctionProperty::Payable),
        Expression::MemberAccess(m) => m.referenced_declaration matches Some(id) && some_function_with(
            units,
            id,
            FunctionProperty::Payable,
        ),
        _ => false,
    }
}

pub fn calls_payable(units: &Vec<SourceUnit>, call: &FunctionCall) -> (r: bool)
    ensures
        r == spec_calls_payable(units@, *call),
{
    match &*call.expression {
        Expression::Identifier(i) => function_with_property(units, i.referenced_declaration, FunctionProperty::Payable),
        Expression::MemberAccess(m) => match m.referenced_declaration {
            Some(id) => function_with_property(units, id, FunctionProperty::Payable),
            None => false,
        },
        _ => false,
    }
}

pub struct UnpaidPayableFunctionsVisitor {}

impl UnpaidPayableFunctionsVisitor {
    pub fn new() -> Self {
        UnpaidPayableFunctionsVisitor {}
    }

    pub fn visit_function_call(&mut self, ctx: &DefCtx, call: &FunctionCall, out: &mut Output) -> (r: Result<(), AnalysisError>)
        requires
            old(out).wf(),
        ensures
            final(out).wf(),
            old(out).extends(*final(out)),
            reported_at_if(
                *old(out),
                *final(out),
                *ctx.unit,
                call.info.src@,
                spec_calls_payable(ctx.units@, *call),
                location_text(*ctx.contract, *ctx.node) + " calls a payable function without paying: `"@ + spec_node_text(*ctx.unit, call.info.src@) + "`"@,
                r is Ok,
            ),
    {
        proof { Output::lemma_extends_refl(*out); }
        if calls_payable(ctx.units, call) {
            let msg = definition_node_location(ctx.contract, ctx.node).concat(
                " calls a payable function without paying: `",
            ).concat(node_text(ctx.unit, call.info.src.as_str()).as_str()).concat("`");
            return out.add_at(ctx.unit, call.info.src.as_str(), msg);
        }
        Ok(())
    }
}

} // verus!
