//! Raw `transfer`/`send` of ether to an address, which ignores the
//! Secure-Ether-Transfer pattern.
use vstd::prelude::*;
use crate::analysis::{printed_at_if, DefCtx, Output};
use crate::ast::{Expression, FunctionCall, FunctionCallOptions};
use crate::query::{expr_info, info_of, opt_view};
use crate::render::{definition_node_location, location_text, node_text, spec_node_text, AnalysisError};
use crate::text::str_eq;

verus! {

/// `<address>.transfer` or `<address>.send` of the built-in kind: a member
/// access named `transfer` or `send` with no declaration (or the declaration
/// 0), on an expression typed `address` or `address payable` or untyped.
pub open spec fn spec_raw_transfer(callee: Expression) -> bool {
    &&& callee matches Expression::MemberAccess(m)
    &&& (opt_view(info_of(*m.expression).type_string) matches Some(t) ==> (t == "address"@ || t
        == "address payable"@))
    &&& (m.member_name@ == "transfer"@ || m.member_name@ == "send"@)
    &&& (m.referenced_declaration is None || m.referenced_declaration == Some(0i64))
}

pub fn is_raw_transfer(callee: &Expression) -> (r: bool)
    ensures
        r == spec_raw_transfer(*callee),
{
    match callee {
        Expression::MemberAccess(m) => {
            if let Some(t) = &expr_info(&m.expression).type_string {
                if !(str_eq(t.as_str(), "address") || str_eq(t.as_str(), "address payable")) {
                    return false;
                }
            }
            (str_eq(m.member_name.as_str(), "transfer") || str_eq(m.member_name.as_str(), "send"))
                && match m.referenced_declaration {
                None => true,
                Some(id) => id == 0,
            }
        },
        _ => false,
    }
}

pub struct SecureEtherTransferVisitor {}

impl SecureEtherTransferVisitor {
    pub fn new() -> Self {
        SecureEtherTransferVisitor {}
    }

    pub fn visit_function_call(&mut self, ctx: &DefCtx, call: &FunctionCall, out: &mut Output) -> (r: Result<(), AnalysisError>)
        requires
            old(out).wf(),
        ensures
            final(out).wf(),
            old(out).extends(*final(out)),
            printed_at_if(
                *old(out),
                *final(out),
                *ctx.unit,
                call.info.src@,
                spec_raw_transfer(*call.expression),
                location_text(*ctx.contract, *ctx.node) + " ignores the Secure-Ether-Transfer pattern: `"@
                    + spec_node_text(*ctx.unit, call.info.src@) + "`"@,
                r is Ok,
            ),
    {
        proof { Output::lemma_extends_refl(*out); }
        if is_raw_transfer(&call.expression) {
            let msg = definition_node_location(ctx.contract, ctx.node).concat(
                " ignores the Secure-Ether-Transfer pattern: `",
            ).concat(node_text(ctx.unit, call.info.src.as_str()).as_str()).concat("`");
            return out.print_at(ctx.unit, call.info.src.as_str(), msg);
        }
        Ok(())
    }

    pub fn visit_function_call_options(&mut self, ctx: &DefCtx, call: &FunctionCallOptions, out: &mut Output) -> (r: Result<(), AnalysisError>)
        requires
            old(out).wf(),
        ensures
            final(out).wf(),
            old(out).extends(*final(out)),
            printed_at_if(
                *old(out),
                *final(out),
                *ctx.unit,
                call.info.src@,
                spec_raw_transfer(*call.expression),
                location_text(*ctx.contract, *ctx.node) + " ignores the Secure-Ether-Transfer pattern: `"@
                    + spec_node_text(*ctx.unit, call.info.src@) + "`"@,
                r is Ok,
            ),
    {
        proof { Output::lemma_extends_refl(*out); }
        if is_raw_transfer(&call.expression) {
            let msg = definition_node_location(ctx.contract, ctx.node).concat(
                " ignores the Secure-Ether-Transfer pattern: `",
            ).concat(node_text(ctx.unit, call.info.src.as_str()).as_str()).concat("`");
            return out.print_at(ctx.unit, call.info.src.as_str(), msg);
        }
        Ok(())
    }
}

} // verus!
