//! Expression statements whose expression has no effect.
use vstd::prelude::*;
use crate::analysis::{reported_at_if, DefCtx, Output};
use crate::ast::{Expression, Statement};
use crate::query::{expr_info, info_of};
use crate::render::{definition_node_location, location_text, node_text, spec_node_text, AnalysisError};

verus! {

/// What kind of ineffectual expression `e` is, if it is one.
pub open spec fn ineffectual_kind(e: Expression) -> Option<Seq<char>> {
    match e {
        Expression::Literal(_) => Some("literal"@),
        Expression::Identifier(_) => Some("identifier"@),
        Expression::IndexAccess(_) => Some("index access"@),
        Expression::IndexRangeAccess(_) => Some("index range access"@),
        Expression::MemberAccess(_) => Some("member access"@),
        Expression::BinaryOperation(_) => Some("binary operation"@),
        Expression::Conditional(_) => Some("conditional"@),
        Expression::TupleExpression(_) => Some("tuple expression"@),
        Expression::FunctionCallOptions(_) => Some("function call options"@),
        _ => None,
    }
}

pub fn ineffectual_description(e: &Expression) -> (r: Option<&'static str>)
    ensures
        match r {
            Some(s) => ineffectual_kind(*e) == Some(s@),
            None => ineffectual_kind(*e) is None,
        },
{
    match e {
        Expression::Literal(_) => Some("literal"),
        Expression::Identifier(_) => Some("identifier"),
        Expression::IndexAccess(_) => Some("index access"),
        Expression::IndexRangeAccess(_) => Some("index range access"),
        Expression::MemberAccess(_) => Some("member access"),
        Expression::BinaryOperation(_) => Some("binary operation"),
        Expression::Conditional(_) => Some("conditional"),
        Expression::TupleExpression(_) => Some("tuple expression"),
        Expression::FunctionCallOptions(_) => Some("function call options"),
        _ => None,
    }
}

pub struct IneffectualStatementsVisitor {}

impl IneffectualStatementsVisitor {
    pub fn new() -> Self {
        IneffectualStatementsVisitor {}
    }

    pub fn visit_statement(&mut self, ctx: &DefCtx, s: &Statement, out: &mut Output) -> (r: Result<(), AnalysisError>)
        requires
            old(out).wf(),
        ensures
            final(out).wf(),
            old(out).extends(*final(out)),
            match *s {
                Statement::ExpressionStatement { expression } => reported_at_if(
                    *old(out),
                    *final(out),
                    *ctx.unit,
                    info_of(expression).src@,
                    ineffectual_kind(expression) is Some,
                    location_text(*ctx.contract, *ctx.node) + " contains an ineffectual "@ + ineffectual_kind(expression)->Some_0
                        + " statement: `"@ + spec_node_text(*ctx.unit, info_of(expression).src@) + "`"@,
                    r is Ok,
                ),
                _ => r is Ok && *final(out) == *old(out),
            },
    {
        proof { Output::lemma_extends_refl(*out); }
        if let Statement::ExpressionStatement { expression } = s {
            if let Some(d) = ineffectual_description(expression) {
                let src = expr_info(expression).src.as_str();
                let msg = definition_node_location(ctx.contract, ctx.node).concat(" contains an ineffectual ").concat(
                    d,
                ).concat(" statement: `").concat(node_text(ctx.unit, src).as_str()).concat("`");
                return out.add_at(ctx.unit, src, msg);
            }
        }
        Ok(())
    }
}

} // verus!
