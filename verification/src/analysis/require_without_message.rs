//! `require` calls without a message.
use vstd::prelude::*;
use crate::analysis::{reported_at_if, DefCtx, Output};
use crate::ast::FunctionCall;
use crate::query::{ident_named, is_identifier_named};
use crate::render::{definition_node_location, location_text, node_text, spec_node_text, AnalysisError};

verus! {

pub open spec fn spec_require_without_message(call: FunctionCall) -> bool {
    ident_named(*call.expression, "require"@) && call.arguments@.len() < 2
}

pub fn is_require_without_message(call: &FunctionCall) -> (r: bool)
    ensures
        r == spec_require_without_message(*call),
{
    is_identifier_named(&call.expression, "require") && call.arguments.len() < 2
}

pub struct RequireWithoutMessageVisitor {}

impl RequireWithoutMessageVisitor {
    pub fn new() -> Self {
        RequireWithoutMessageVisitor {}
    }

    pub fn visit_function_call(&mut self, ctx: &DefCtx, call: &FunctionCall, out: &mut Output) -> (r: Result<(), AnalysisError>)
        requires
            old(out).wf(),
        ensures
            final(out).wf(),
            old(out).extends(*final(out)),
            reported_at_if(
                *old(out),
                *final(out),
                *ctx.unit,
                call.info.src@,
                spec_require_without_message(*call),
                location_text(*ctx.contract, *ctx.node) + " contains a requirement without a message: `"@ + spec_node_text(*ctx.unit, call.info.src@) + "`"@,
                r is Ok,
            ),
    {
        proof { Output::lemma_extends_refl(*out); }
        if is_require_without_message(call) {
            let msg = definition_node_location(ctx.contract, ctx.node).concat(
                " contains a requirement without a message: `",
            ).concat(node_text(ctx.unit, call.info.src.as_str()).as_str()).concat("`");
            return out.add_at(ctx.unit, call.info.src.as_str(), msg);
        }
        Ok(())
    }
}

} // verus!
