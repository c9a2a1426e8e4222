//! Statements that call `selfdestruct`.
use vstd::prelude::*;
use crate::analysis::{reported_at_if, DefCtx, Output};
use crate::ast::{Expression, Statement};
use crate::query::{ident_named, is_identifier_named};
use crate::render::{definition_node_location, location_text, AnalysisError};

verus! {

/// An expression statement that calls `selfdestruct`.
pub open spec fn spec_selfdestruct_call(s: Statement) -> bool {
    s matches Statement::ExpressionStatement { expression: Expression::FunctionCall(f) } && ident_named(
        *f.expression,
        "selfdestruct"@,
    )
}

pub struct SelfdestructUsageVisitor {}

impl SelfdestructUsageVisitor {
    pub fn new() -> Self {
        SelfdestructUsageVisitor {}
    }

    pub fn visit_statement(&mut self, ctx: &DefCtx, s: &Statement, out: &mut Output) -> (r: Result<(), AnalysisError>)
        requires
            old(out).wf(),
        ensures
            final(out).wf(),
            old(out).extends(*final(out)),
            reported_at_if(
                *old(out),
                *final(out),
                *ctx.unit,
                match *s {
                    Statement::ExpressionStatement { expression: Expression::FunctionCall(f) } => f.info.src@,
                    _ => Seq::empty(),
                },
                spec_selfdestruct_call(*s),
                location_text(*ctx.contract, *ctx.node) + " contains `selfdestruct` usage"@,
                r is Ok,
            ),
    {
        proof { Output::lemma_extends_refl(*out); }
        if let Statement::ExpressionStatement { expression: Expression::FunctionCall(f) } = s {
            if is_identifier_named(&f.expression, "selfdestruct") {
                let msg = definition_node_location(ctx.contract, ctx.node).concat(
                    " contains `selfdestruct` usage",
                );
                return out.add_at(ctx.unit, f.info.src.as_str(), msg);
            }
        }
        Ok(())
    }
}

} // verus!
