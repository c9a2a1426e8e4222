//! Uses of the contract's own balance, which others can change by sending ether.
use vstd::prelude::*;
use crate::analysis::{reported_at_if, DefCtx, Output};
use crate::ast::{Expression, FunctionCall, MemberAccess};
use crate::query::{ident_named, is_address_type, is_address_type_expression, is_identifier_named};
use crate::render::{definition_node_location, location_text, node_text, spec_node_text, AnalysisError};
use crate::text::str_eq;

verus! {

/// `address(this)`: a call of `address` with the one argument `this`.
pub open spec fn spec_is_address_this(e: Expression) -> bool {
    &&& e matches Expression::FunctionCall(f)
    &&& is_address_type(*f.expression)
    &&& f.arguments@.len() == 1
    &&& ident_named(f.arguments@[0], "this"@)
}

pub fn is_address_this(e: &Expression) -> (r: bool)
    ensures
        r == spec_is_address_this(*e),
{
    match e {
        Expression::FunctionCall(f) => is_address_type_expression(&f.expression) && f.arguments.len() == 1
            && is_identifier_named(&f.arguments[0], "this"),
        _ => false,
    }
}

/// `address(this).balance`.
pub open spec fn spec_own_balance(m: MemberAccess) -> bool {
    m.member_name@ == "balance"@ && spec_is_address_this(*m.expression)
}

/// `<token>.balanceOf(address(this))`.
pub open spec fn spec_own_token_balance(call: FunctionCall) -> bool {
    &&& *call.expression matches Expression::MemberAccess(m)
    &&& m.member_name@ == "balanceOf"@
    &&& call.arguments@.len() == 1
    &&& spec_is_address_this(call.arguments@[0])
}

pub fn is_own_token_balance(call: &FunctionCall) -> (r: bool)
    ensures
        r == spec_own_token_balance(*call),
{
    match &*call.expression {
        Expression::MemberAccess(m) => str_eq(m.member_name.as_str(), "balanceOf") && call.arguments.len() == 1
            && is_address_this(&call.arguments[0]),
        _ => false,
    }
}

pub struct ManipulatableBalanceUsageVisitor {}

impl ManipulatableBalanceUsageVisitor {
    pub fn new() -> Self {
        ManipulatableBalanceUsageVisitor {}
    }

    pub fn visit_member_access(&mut self, ctx: &DefCtx, m: &MemberAccess, out: &mut Output) -> (r: Result<(), AnalysisError>)
        requires
            old(out).wf(),
        ensures
            final(out).wf(),
            old(out).extends(*final(out)),
            reported_at_if(
                *old(out),
                *final(out),
                *ctx.unit,
                m.info.src@,
                spec_own_balance(*m),
                location_text(*ctx.contract, *ctx.node) + " contains manipulatable balance usage: `"@ + spec_node_text(
                    *ctx.unit,
                    m.info.src@,
                ) + "`"@,
                r is Ok,
            ),
    {
        proof { Output::lemma_extends_refl(*out); }
        if str_eq(m.member_name.as_str(), "balance") && is_address_this(&m.expression) {
            let msg = definition_node_location(ctx.contract, ctx.node).concat(
                " contains manipulatable balance usage: `",
            ).concat(node_text(ctx.unit, m.info.src.as_str()).as_str()).concat("`");
            return out.add_at(ctx.unit, m.info.src.as_str(), msg);
        }
        Ok(())
    }

    pub fn visit_function_call(&mut self, ctx: &DefCtx, call: &FunctionCall, out: &mut Output) -> (r: Result<(), AnalysisError>)
        requires
            old(out).wf(),
        ensures
            final(out).wf(),
            old(out).extends(*final(out)),
            reported_at_if(
                *old(out),
                *final(out),
                *ctx.unit,
                call.info.src@,
                spec_own_token_balance(*call),
                location_text(*ctx.contract, *ctx.node) + " contains manipulatable balance usage: `"@ + spec_node_text(
                    *ctx.unit,
                    call.info.src@,
                ) + "`"@,
                r is Ok,
            ),
    {
        proof { Output::lemma_extends_refl(*out); }
        if is_own_token_balance(call) {
            let msg = definition_node_location(ctx.contract, ctx.node).concat(
                " contains manipulatable balance usage: `",
            ).concat(node_text(ctx.unit, call.info.src.as_str()).as_str()).concat("`");
            return out.add_at(ctx.unit, call.info.src.as_str(), msg);
        }
        Ok(())
    }
}

} // verus!
