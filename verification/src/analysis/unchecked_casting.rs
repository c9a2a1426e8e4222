//! Type conversions to the type their argument already has.
use vstd::prelude::*;
use crate::analysis::{printed_at_if, DefCtx, Output};
use crate::ast::{Expression, FunctionCall, FunctionCallKind, TypeName};
use crate::query::{definition_id, expr_info, info_of, opt_str_eq, opt_view, function_or_modifier_id};
use crate::render::{definition_node_location, location_text, node_text, spec_node_text, AnalysisError};

verus! {

/// A conversion to an elementary type whose first argument has the same type
/// descriptions as the conversion's type expression.
pub open spec fn is_redundant_cast(call: FunctionCall) -> bool {
    &&& call.kind == FunctionCallKind::TypeConversion
    &&& *call.expression matches Expression::ElementaryTypeNameExpression(t)
    &&& t.ty is ElementaryTypeName
    &&& call.arguments@.len() > 0
    &&& !(call.arguments@[0] is UnhandledExpression)
    &&& opt_view(info_of(call.arguments@[0]).type_identifier) == opt_view(t.info.type_identifier)
    &&& opt_view(info_of(call.arguments@[0]).type_string) == opt_view(t.info.type_string)
}

pub fn redundant_cast(call: &FunctionCall) -> (r: bool)
    ensures
        r == is_redundant_cast(*call),
{
    if call.kind != FunctionCallKind::TypeConversion {
        return false;
    }
    let t = match &*call.expression {
        Expression::ElementaryTypeNameExpression(t) => t,
        _ => return false,
    };
    if !matches!(t.ty, TypeName::ElementaryTypeName { .. }) {
        return false;
    }
    if call.arguments.len() == 0 {
        return false;
    }
    if let Expression::UnhandledExpression { .. } = &call.arguments[0] {
        return false;
    }
    let info = expr_info(&call.arguments[0]);
    opt_str_eq(&info.type_identifier, &t.info.type_identifier) && opt_str_eq(&info.type_string, &t.info.type_string)
}

pub struct UncheckedCastingVisitor {}

impl UncheckedCastingVisitor {
    pub fn new() -> Self {
        UncheckedCastingVisitor {}
    }

    /// Prints a redundant cast in a function or modifier.
    pub fn visit_function_call(&mut self, ctx: &DefCtx, call: &FunctionCall, out: &mut Output) -> (r: Result<
        (),
        AnalysisError,
    >)
        requires
            old(out).wf(),
        ensures
            final(out).wf(),
            old(out).extends(*final(out)),
            printed_at_if(
                *old(out),
                *final(out),
                *ctx.unit,
                call.info.src@,
                definition_id(*ctx.node) is Some && is_redundant_cast(*call),
                location_text(*ctx.contract, *ctx.node) + " contains a redundant cast: `"@ + spec_node_text(
                    *ctx.unit,
                    call.info.src@,
                ) + "`"@,
                r is Ok,
            ),
    {
        proof { Output::lemma_extends_refl(*out); }
        if function_or_modifier_id(ctx.node).is_none() || !redundant_cast(call) {
            return Ok(());
        }
        let msg = definition_node_location(ctx.contract, ctx.node).concat(" contains a redundant cast: `").concat(
            node_text(ctx.unit, call.info.src.as_str()).as_str(),
        ).concat("`");
        out.print_at(ctx.unit, call.info.src.as_str(), msg)
    }
}

} // verus!
