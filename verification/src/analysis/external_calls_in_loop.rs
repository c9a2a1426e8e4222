//! External calls made inside a loop.
use vstd::prelude::*;
use crate::analysis::{printed_at_if, DefCtx, Output};
use crate::ast::{ForStatement, FunctionCall, Identifier, MemberAccess, NodeId, WhileStatement};
use crate::query::{definition_id, function_or_modifier_id, function_with_property, some_function_with, FunctionProperty};
use crate::render::{definition_node_location, location_text, node_text, spec_node_text, AnalysisError};

verus! {

/// The message for an external call made in a loop, shown as the text of
/// the most recent call walked.
pub open spec fn loop_call_text(location: Seq<char>, unit: crate::ast::SourceUnit, call_src: Seq<char>) -> Seq<char> {
    location + " makes an external call inside a loop: `"@ + spec_node_text(unit, call_src) + "`"@
}

pub struct ExternalCallsInLoopVisitor {
    /// The loops being walked, innermost last.
    pub loop_ids: Vec<NodeId>,
    /// The source range of the most recent function call walked.
    pub last_call: Option<String>,
}

impl ExternalCallsInLoopVisitor {
    pub fn new() -> (r: Self)
        ensures
            r.loop_ids@.len() == 0,
            r.last_call is None,
    {
        ExternalCallsInLoopVisitor { loop_ids: Vec::new(), last_call: None }
    }

    /// Remembers the call as the most recent one.
    pub fn visit_function_call(&mut self, call: &FunctionCall)
        ensures
            final(self).loop_ids == old(self).loop_ids,
            final(self).last_call matches Some(s) && s@ == call.info.src@,
    {
        self.last_call = Some(call.info.src.clone());
    }

    /// Enters a loop.
    pub fn visit_for_statement(&mut self, st: &ForStatement)
        ensures
            final(self).loop_ids@ == old(self).loop_ids@.push(st.info.id),
            final(self).last_call == old(self).last_call,
    {
        self.loop_ids.push(st.info.id);
    }

    /// Enters a loop.
    pub fn visit_while_statement(&mut self, st: &WhileStatement)
        ensures
            final(self).loop_ids@ == old(self).loop_ids@.push(st.info.id),
            final(self).last_call == old(self).last_call,
    {
        self.loop_ids.push(st.info.id);
    }

    fn leave_loop(&mut self, id: NodeId) -> (r: Result<(), AnalysisError>)
        ensures
            final(self).last_call == old(self).last_call,
            r is Ok <==> (old(self).loop_ids@.len() > 0 && old(self).loop_ids@.last() == id),
            old(self).loop_ids@.len() > 0 ==> final(self).loop_ids@ == old(self).loop_ids@.drop_last(),
            r == Err::<(), AnalysisError>(AnalysisError::InvalidLoopStack) || r is Ok,
    {
        match self.loop_ids.pop() {
            Some(top) => {
                if top != id {
                    return Err(AnalysisError::InvalidLoopStack);
                }
                Ok(())
            },
            None => Err(AnalysisError::InvalidLoopStack),
        }
    }

    /// Leaves a loop, which must be the innermost one entered.
    pub fn leave_for_statement(&mut self, st: &ForStatement) -> (r: Result<(), AnalysisError>)
        ensures
            final(self).last_call == old(self).last_call,
            r is Ok <==> (old(self).loop_ids@.len() > 0 && old(self).loop_ids@.last() == st.info.id),
            old(self).loop_ids@.len() > 0 ==> final(self).loop_ids@ == old(self).loop_ids@.drop_last(),
    {
        self.leave_loop(st.info.id)
    }

    /// Leaves a loop, which must be the innermost one entered.
    pub fn leave_while_statement(&mut self, st: &WhileStatement) -> (r: Result<(), AnalysisError>)
        ensures
            final(self).last_call == old(self).last_call,
            r is Ok <==> (old(self).loop_ids@.len() > 0 && old(self).loop_ids@.last() == st.info.id),
            old(self).loop_ids@.len() > 0 ==> final(self).loop_ids@ == old(self).loop_ids@.drop_last(),
    {
        self.leave_loop(st.info.id)
    }

    /// In a loop of a function or modifier, a reference to an external
    /// function, with a call walked before.
    pub open spec fn calls_external(&self, ctx: DefCtx, id: NodeId) -> bool {
        &&& definition_id(*ctx.node) is Some
        &&& self.loop_ids@.len() > 0
        &&& some_function_with(ctx.units@, id, FunctionProperty::External)
        &&& self.last_call is Some
    }

    fn check(&mut self, ctx: &DefCtx, id: NodeId, src: &str, out: &mut Output) -> (r: Result<(), AnalysisError>)
        requires
            old(out).wf(),
        ensures
            final(out).wf(),
            old(out).extends(*final(out)),
            *final(self) == *old(self),
            printed_at_if(
                *old(out),
                *final(out),
                *ctx.unit,
                src@,
                old(self).calls_external(*ctx, id),
                loop_call_text(location_text(*ctx.contract, *ctx.node), *ctx.unit, old(self).last_call->Some_0@),
                r is Ok,
            ),
    {
        proof { Output::lemma_extends_refl(*out); }
        if function_or_modifier_id(ctx.node).is_none() || self.loop_ids.len() == 0 {
            return Ok(());
        }
        if !function_with_property(ctx.units, id, FunctionProperty::External) {
            return Ok(());
        }
        match &self.last_call {
            Some(call_src) => {
                let msg = definition_node_location(ctx.contract, ctx.node).concat(" makes an external call inside a loop: `").concat(
                    node_text(ctx.unit, call_src.as_str()).as_str(),
                ).concat("`");
                out.print_at(ctx.unit, src, msg)
            },
            None => Ok(()),
        }
    }

    /// Prints an identifier in a loop that refers to an external function.
    pub fn visit_identifier(&mut self, ctx: &DefCtx, i: &Identifier, out: &mut Output) -> (r: Result<(), AnalysisError>)
        requires
            old(out).wf(),
        ensures
            final(out).wf(),
            old(out).extends(*final(out)),
            *final(self) == *old(self),
            printed_at_if(
                *old(out),
                *final(out),
                *ctx.unit,
                i.info.src@,
                old(self).calls_external(*ctx, i.referenced_declaration),
                loop_call_text(location_text(*ctx.contract, *ctx.node), *ctx.unit, old(self).last_call->Some_0@),
                r is Ok,
            ),
    {
        self.check(ctx, i.referenced_declaration, i.info.src.as_str(), out)
    }

    /// Prints a member access in a loop that refers to an external function.
    pub fn visit_member_access(&mut self, ctx: &DefCtx, m: &MemberAccess, out: &mut Output) -> (r: Result<(), AnalysisError>)
        requires
            old(out).wf(),
        ensures
            final(out).wf(),
            old(out).extends(*final(out)),
            *final(self) == *old(self),
            match m.referenced_declaration {
                Some(id) => printed_at_if(
                    *old(out),
                    *final(out),
                    *ctx.unit,
                    m.info.src@,
                    old(self).calls_external(*ctx, id),
                    loop_call_text(location_text(*ctx.contract, *ctx.node), *ctx.unit, old(self).last_call->Some_0@),
                    r is Ok,
                ),
                None => *final(out) == *old(out) && r is Ok,
            },
    {
        proof { Output::lemma_extends_refl(*out); }
        match m.referenced_declaration {
            Some(id) => self.check(ctx, id, m.info.src.as_str(), out),
            None => Ok(()),
        }
    }
}

} // verus!
