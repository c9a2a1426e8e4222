//! `assert` calls, reported once per function or modifier.
use vstd::prelude::*;
use crate::analysis::{reported_at_if, DefCtx, Output};
use crate::ast::{FunctionCall, NodeId};
use crate::query::{definition_id, function_or_modifier_id, ident_named, is_identifier_named};
use crate::render::{definition_node_location, location_text, node_text, spec_node_text, AnalysisError};

verus! {

pub struct AssertUsageVisitor {
    /// The functions and modifiers already reported.
    pub reported_definitions: Vec<NodeId>,
}

impl AssertUsageVisitor {
    pub fn new() -> (r: Self)
        ensures
            r.reported_definitions@.len() == 0,
    {
        AssertUsageVisitor { reported_definitions: Vec::new() }
    }

    /// Reports the first `assert` call of each function or modifier.
    #[verifier::loop_isolation(false)]
    pub fn visit_function_call(&mut self, ctx: &DefCtx, call: &FunctionCall, out: &mut Output) -> (r: Result<(), AnalysisError>)
        requires
            old(out).wf(),
        ensures
            final(out).wf(),
            old(out).extends(*final(out)),
            ({
                let fresh = definition_id(*ctx.node) matches Some(id) && ident_named(*call.expression, "assert"@)
                    && !old(self).reported_definitions@.contains(id);
                &&& fresh ==> final(self).reported_definitions@ == old(self).reported_definitions@.push(
                    definition_id(*ctx.node)->Some_0,
                )
                &&& !fresh ==> final(self).reported_definitions@ == old(self).reported_definitions@
                    && final(out).report == old(out).report
                &&& reported_at_if(
                    *old(out),
                    *final(out),
                    *ctx.unit,
                    call.info.src@,
                    fresh,
                    location_text(*ctx.contract, *ctx.node) + " contains assert usage: `"@ + spec_node_text(
                        *ctx.unit,
                        call.info.src@,
                    ) + "`"@,
                    r is Ok,
                )
            }),
    {
        proof { Output::lemma_extends_refl(*out); }
        let id = match function_or_modifier_id(ctx.node) {
            Some(id) => id,
            None => return Ok(()),
        };
        if !is_identifier_named(&call.expression, "assert") {
            return Ok(());
        }
        let mut k: usize = 0;
        while k < self.reported_definitions.len()
            invariant
                k <= self.reported_definitions@.len(),
                forall|j: int| 0 <= j < k ==> self.reported_definitions@[j] != id,
            decreases self.reported_definitions@.len() - k,
        {
            if self.reported_definitions[k] == id {
                assert(self.reported_definitions@.contains(id));
                return Ok(());
            }
            k = k + 1;
        }
        self.reported_definitions.push(id);
        let msg = definition_node_location(ctx.contract, ctx.node).concat(" contains assert usage: `").concat(
            node_text(ctx.unit, call.info.src.as_str()).as_str(),
        ).concat("`");
        out.add_at(ctx.unit, call.info.src.as_str(), msg)
    }
}

} // verus!
