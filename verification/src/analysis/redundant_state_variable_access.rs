//! Loop conditions that read a state variable on every iteration.
use vstd::prelude::*;
use crate::analysis::{printed_at_if, DefCtx, Output};
use crate::ast::{Expression, ForStatement, WhileStatement};
use crate::query::{hierarchy_contains_state_variable, in_hierarchy, info_of, referenced_declarations, refs, expr_info};
use crate::render::{definition_node_location, location_text, node_text, spec_node_text, AnalysisError};

verus! {

/// The condition refers to a state variable of the contract's hierarchy.
pub open spec fn reads_state(units: Seq<crate::ast::SourceUnit>, c: crate::ast::ContractDefinition, e: Expression) -> bool {
    exists|k: int| 0 <= k < refs(e).len() && in_hierarchy(units, c, #[trigger] refs(e)[k])
}

/// The message for a loop whose condition `e` reads storage.
pub open spec fn storage_text(location: Seq<char>, what: Seq<char>, unit: crate::ast::SourceUnit, e: Expression) -> Seq<char> {
    location + " contains "@ + what + " which redundantly accesses storage: `"@ + spec_node_text(unit, info_of(e).src@)
        + "`"@
}

pub struct RedundantStateVariableAccessVisitor {}

impl RedundantStateVariableAccessVisitor {
    pub fn new() -> Self {
        RedundantStateVariableAccessVisitor {}
    }

    fn check(&self, ctx: &DefCtx, e: &Expression, what: &str, out: &mut Output) -> (r: Result<(), AnalysisError>)
        requires
            old(out).wf(),
        ensures
            final(out).wf(),
            old(out).extends(*final(out)),
            printed_at_if(
                *old(out),
                *final(out),
                *ctx.unit,
                info_of(*e).src@,
                reads_state(ctx.units@, *ctx.contract, *e),
                storage_text(location_text(*ctx.contract, *ctx.node), what@, *ctx.unit, *e),
                r is Ok,
            ),
    {
        proof { Output::lemma_extends_refl(*out); }
        let ids = referenced_declarations(e);
        let mut k: usize = 0;
        while k < ids.len()
            invariant
                k <= ids@.len(),
                ids@ == refs(*e),
                *out == *old(out),
                out.wf(),
                forall|j: int| 0 <= j < k ==> !in_hierarchy(ctx.units@, *ctx.contract, #[trigger] refs(*e)[j]),
            decreases ids@.len() - k,
        {
            if hierarchy_contains_state_variable(ctx.units, ctx.contract, ids[k]) {
                let src = &expr_info(e).src;
                let msg = definition_node_location(ctx.contract, ctx.node).concat(" contains ").concat(what).concat(
                    " which redundantly accesses storage: `",
                ).concat(node_text(ctx.unit, src.as_str()).as_str()).concat("`");
                return out.print_at(ctx.unit, src.as_str(), msg);
            }
            k = k + 1;
        }
        Ok(())
    }

    /// Prints a `for` statement whose condition reads a state variable.
    pub fn visit_for_statement(&mut self, ctx: &DefCtx, st: &ForStatement, out: &mut Output) -> (r: Result<
        (),
        AnalysisError,
    >)
        requires
            old(out).wf(),
        ensures
            final(out).wf(),
            old(out).extends(*final(out)),
            match st.condition {
                Some(c) => printed_at_if(
                    *old(out),
                    *final(out),
                    *ctx.unit,
                    info_of(c).src@,
                    reads_state(ctx.units@, *ctx.contract, c),
                    storage_text(location_text(*ctx.contract, *ctx.node), "a for statement with a condition"@, *ctx.unit, c),
                    r is Ok,
                ),
                None => *final(out) == *old(out) && r is Ok,
            },
    {
        proof { Output::lemma_extends_refl(*out); }
        match &st.condition {
            Some(c) => self.check(ctx, c, "a for statement with a condition", out),
            None => Ok(()),
        }
    }

    /// Prints a `while` statement whose condition reads a state variable.
    pub fn visit_while_statement(&mut self, ctx: &DefCtx, st: &WhileStatement, out: &mut Output) -> (r: Result<
        (),
        AnalysisError,
    >)
        requires
            old(out).wf(),
        ensures
            final(out).wf(),
            old(out).extends(*final(out)),
            printed_at_if(
                *old(out),
                *final(out),
                *ctx.unit,
                info_of(st.condition).src@,
                reads_state(ctx.units@, *ctx.contract, st.condition),
                storage_text(location_text(*ctx.contract, *ctx.node), "a while statement with a condition"@, *ctx.unit, st.condition),
                r is Ok,
            ),
    {
        self.check(ctx, &st.condition, "a while statement with a condition", out)
    }
}

} // verus!
