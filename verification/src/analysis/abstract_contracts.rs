//! Internal constructors in contracts not marked `abstract`.
use vstd::prelude::*;
use crate::analysis::{reported_at_if, DefCtx, Output};
use crate::ast::{ContractDefinition, FunctionDefinition, FunctionKind, Visibility};
use crate::render::{definition_node_location, location_text, visibility_str, visibility_text, AnalysisError};

verus! {

/// An internal constructor of a contract that is not marked abstract.
pub open spec fn spec_internal_constructor(c: ContractDefinition, f: FunctionDefinition) -> bool {
    f.kind == FunctionKind::Constructor && f.visibility == Visibility::Internal && c.is_abstract
        != Some(true)
}

pub fn is_internal_constructor_of_concrete(c: &ContractDefinition, f: &FunctionDefinition) -> (r: bool)
    ensures
        r == spec_internal_constructor(*c, *f),
{
    f.kind == FunctionKind::Constructor && f.visibility == Visibility::Internal && !matches!(c.is_abstract, Some(true))
}

pub struct AbstractContractsVisitor {}

impl AbstractContractsVisitor {
    pub fn new() -> Self {
        AbstractContractsVisitor {}
    }

    pub fn visit_function_definition(&mut self, ctx: &DefCtx, f: &FunctionDefinition, out: &mut Output) -> (r: Result<(), AnalysisError>)
        requires
            old(out).wf(),
        ensures
            final(out).wf(),
            old(out).extends(*final(out)),
            reported_at_if(
                *old(out),
                *final(out),
                *ctx.unit,
                f.info.src@,
                spec_internal_constructor(*ctx.contract, *f),
                location_text(*ctx.contract, *ctx.node) + " is marked "@ + visibility_text(f.visibility)
                    + " instead of marking `"@ + ctx.contract.name@ + "` as abstract"@,
                r is Ok,
            ),
    {
        proof { Output::lemma_extends_refl(*out); }
        if is_internal_constructor_of_concrete(ctx.contract, f) {
            let msg = definition_node_location(ctx.contract, ctx.node).concat(" is marked ").concat(
                visibility_str(f.visibility),
            ).concat(" instead of marking `").concat(ctx.contract.name.as_str()).concat("` as abstract");
            return out.add_at(ctx.unit, f.info.src.as_str(), msg);
        }
        Ok(())
    }
}

} // verus!
