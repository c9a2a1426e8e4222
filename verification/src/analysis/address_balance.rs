//! `address(x).balance`, which assembly reads more cheaply.
use vstd::prelude::*;
use crate::analysis::{reported_at_if, DefCtx, Output};
use crate::ast::{Expression, MemberAccess};
use crate::query::{is_address_type, is_address_type_expression};
use crate::render::{definition_node_location, location_text, node_text, spec_node_text, AnalysisError};
use crate::text::str_eq;

verus! {

/// For `address(x).balance` with `x` an identifier: whether `x` is other than
/// `this` (the balance of another account). `None` for any other expression.
pub open spec fn spec_balance_of(m: MemberAccess) -> Option<bool> {
    if m.member_name@ != "balance"@ {
        None
    } else {
        match *m.expression {
            Expression::FunctionCall(f) => if f.arguments@.len() == 1 && is_address_type(*f.expression) {
                match f.arguments@[0] {
                    Expression::Identifier(i) => Some(i.name@ != "this"@),
                    _ => None,
                }
            } else {
                None
            },
            _ => None,
        }
    }
}

pub fn balance_of(m: &MemberAccess) -> (r: Option<bool>)
    ensures
        r == spec_balance_of(*m),
{
    if !str_eq(m.member_name.as_str(), "balance") {
        return None;
    }
    match &*m.expression {
        Expression::FunctionCall(f) => {
            if f.arguments.len() != 1 || !is_address_type_expression(&f.expression) {
                return None;
            }
            match &f.arguments[0] {
                Expression::Identifier(i) => Some(!str_eq(i.name.as_str(), "this")),
                _ => None,
            }
        },
        _ => None,
    }
}

pub struct AddressBalanceVisitor {}

impl AddressBalanceVisitor {
    pub fn new() -> Self {
        AddressBalanceVisitor {}
    }

    pub fn visit_member_access(&mut self, ctx: &DefCtx, m: &MemberAccess, out: &mut Output) -> (r: Result<(), AnalysisError>)
        requires
            old(out).wf(),
        ensures
            final(out).wf(),
            old(out).extends(*final(out)),
            reported_at_if(
                *old(out),
                *final(out),
                *ctx.unit,
                m.info.src@,
                spec_balance_of(*m) is Some,
                location_text(*ctx.contract, *ctx.node) + " contains `"@ + spec_node_text(*ctx.unit, m.info.src@)
                    + "` usage, which can be optimized with assembly: `"@ + (if spec_balance_of(*m) == Some(true) {
                    "assembly { bal := balance(addr); }"@
                } else {
                    "assembly { bal := selfbalance(); }"@
                }) + "`"@,
                r is Ok,
            ),
    {
        proof { Output::lemma_extends_refl(*out); }
        if let Some(external) = balance_of(m) {
            let msg = definition_node_location(ctx.contract, ctx.node).concat(" contains `").concat(
                node_text(ctx.unit, m.info.src.as_str()).as_str(),
            ).concat("` usage, which can be optimized with assembly: `").concat(
                if external {
                    "assembly { bal := balance(addr); }"
                } else {
                    "assembly { bal := selfbalance(); }"
                },
            ).concat("`");
            return out.add_at(ctx.unit, m.info.src.as_str(), msg);
        }
        Ok(())
    }
}

} // verus!
