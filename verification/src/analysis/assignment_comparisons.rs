//! Conditions that perform an assignment.
use vstd::prelude::*;
use crate::analysis::{printed_at_if, DefCtx, Output};
use crate::ast::{Conditional, Expression, ForStatement, FunctionCall, IfStatement, WhileStatement};
use crate::query::{contains_op, contains_operation, definition_id, function_or_modifier_id, info_of, expr_info};
use crate::render::{definition_node_location, location_text, node_text, spec_node_text, AnalysisError};
use crate::text::str_eq;

verus! {

/// The message for a condition, shown as `shown`, that performs an assignment.
pub open spec fn assignment_text(location: Seq<char>, what: Seq<char>, shown: Seq<char>) -> Seq<char> {
    location + " contains a "@ + what + " that performs an assignment: `"@ + shown + "`"@
}

/// The name of a call to `require` or `assert`.
pub open spec fn checking_call_name(call: FunctionCall) -> Option<Seq<char>> {
    match *call.expression {
        Expression::Identifier(i) => if i.name@ == "require"@ || i.name@ == "assert"@ {
            Some(i.name@)
        } else {
            None
        },
        _ => None,
    }
}

pub struct AssignmentComparisonsVisitor {}

impl AssignmentComparisonsVisitor {
    pub fn new() -> Self {
        AssignmentComparisonsVisitor {}
    }

    fn report(&self, ctx: &DefCtx, src: &str, what: &str, shown_src: &str, out: &mut Output) -> (r: Result<
        (),
        AnalysisError,
    >)
        requires
            old(out).wf(),
        ensures
            final(out).wf(),
            old(out).extends(*final(out)),
            printed_at_if(
                *old(out),
                *final(out),
                *ctx.unit,
                src@,
                definition_id(*ctx.node) is Some,
                assignment_text(location_text(*ctx.contract, *ctx.node), what@, spec_node_text(*ctx.unit, shown_src@)),
                r is Ok,
            ),
    {
        proof { Output::lemma_extends_refl(*out); }
        if function_or_modifier_id(ctx.node).is_none() {
            return Ok(());
        }
        let msg = definition_node_location(ctx.contract, ctx.node).concat(" contains a ").concat(what).concat(
            " that performs an assignment: `",
        ).concat(node_text(ctx.unit, shown_src).as_str()).concat("`");
        out.print_at(ctx.unit, src, msg)
    }

    /// Prints a `require` or `assert` call whose first argument assigns.
    pub fn visit_function_call(&mut self, ctx: &DefCtx, call: &FunctionCall, out: &mut Output) -> (r: Result<
        (),
        AnalysisError,
    >)
        requires
            old(out).wf(),
        ensures
            final(out).wf(),
            old(out).extends(*final(out)),
            printed_at_if(
                *old(out),
                *final(out),
                *ctx.unit,
                call.info.src@,
                definition_id(*ctx.node) is Some && checking_call_name(*call) is Some && call.arguments@.len() > 0
                    && contains_op(call.arguments@[0], "="@),
                assignment_text(
                    location_text(*ctx.contract, *ctx.node),
                    "a call to `"@ + checking_call_name(*call)->Some_0 + "`"@,
                    spec_node_text(*ctx.unit, call.info.src@),
                ),
                r is Ok,
            ),
    {
        proof { Output::lemma_extends_refl(*out); }
        let name = match &*call.expression {
            Expression::Identifier(i) => {
                if str_eq(i.name.as_str(), "require") || str_eq(i.name.as_str(), "assert") {
                    &i.name
                } else {
                    return Ok(());
                }
            },
            _ => return Ok(()),
        };
        if call.arguments.len() == 0 || !contains_operation(&call.arguments[0], "=") {
            return Ok(());
        }
        let what = String::from_str("a call to `").concat(name.as_str()).concat("`");
        self.report(ctx, call.info.src.as_str(), what.as_str(), call.info.src.as_str(), out)
    }

    /// Prints an `if` statement whose condition assigns.
    pub fn visit_if_statement(&mut self, ctx: &DefCtx, st: &IfStatement, out: &mut Output) -> (r: Result<
        (),
        AnalysisError,
    >)
        requires
            old(out).wf(),
        ensures
            final(out).wf(),
            old(out).extends(*final(out)),
            printed_at_if(
                *old(out),
                *final(out),
                *ctx.unit,
                st.info.src@,
                definition_id(*ctx.node) is Some && contains_op(st.condition, "="@),
                assignment_text(location_text(*ctx.contract, *ctx.node), "an if statement"@, spec_node_text(*ctx.unit, info_of(st.condition).src@)),
                r is Ok,
            ),
    {
        proof { Output::lemma_extends_refl(*out); }
        if !contains_operation(&st.condition, "=") {
            return Ok(());
        }
        self.report(ctx, st.info.src.as_str(), "an if statement", expr_info(&st.condition).src.as_str(), out)
    }

    /// Prints a `for` statement whose condition assigns.
    pub fn visit_for_statement(&mut self, ctx: &DefCtx, st: &ForStatement, out: &mut Output) -> (r: Result<
        (),
        AnalysisError,
    >)
        requires
            old(out).wf(),
        ensures
            final(out).wf(),
            old(out).extends(*final(out)),
            match st.condition {
                Some(c) => printed_at_if(
                    *old(out),
                    *final(out),
                    *ctx.unit,
                    st.info.src@,
                    definition_id(*ctx.node) is Some && contains_op(c, "="@),
                    assignment_text(location_text(*ctx.contract, *ctx.node), "a for statement"@, spec_node_text(*ctx.unit, info_of(c).src@)),
                    r is Ok,
                ),
                None => *final(out) == *old(out) && r is Ok,
            },
    {
        proof { Output::lemma_extends_refl(*out); }
        match &st.condition {
            Some(c) => {
                if !contains_operation(c, "=") {
                    return Ok(());
                }
                self.report(ctx, st.info.src.as_str(), "a for statement", expr_info(c).src.as_str(), out)
            },
            None => Ok(()),
        }
    }

    /// Prints a `while` statement whose condition assigns.
    pub fn visit_while_statement(&mut self, ctx: &DefCtx, st: &WhileStatement, out: &mut Output) -> (r: Result<
        (),
        AnalysisError,
    >)
        requires
            old(out).wf(),
        ensures
            final(out).wf(),
            old(out).extends(*final(out)),
            printed_at_if(
                *old(out),
                *final(out),
                *ctx.unit,
                st.info.src@,
                definition_id(*ctx.node) is Some && contains_op(st.condition, "="@),
                assignment_text(location_text(*ctx.contract, *ctx.node), "a while statement"@, spec_node_text(*ctx.unit, info_of(st.condition).src@)),
                r is Ok,
            ),
    {
        proof { Output::lemma_extends_refl(*out); }
        if !contains_operation(&st.condition, "=") {
            return Ok(());
        }
        self.report(ctx, st.info.src.as_str(), "a while statement", expr_info(&st.condition).src.as_str(), out)
    }

    /// Prints a conditional expression whose condition assigns.
    pub fn visit_conditional(&mut self, ctx: &DefCtx, c: &Conditional, out: &mut Output) -> (r: Result<
        (),
        AnalysisError,
    >)
        requires
            old(out).wf(),
        ensures
            final(out).wf(),
            old(out).extends(*final(out)),
            printed_at_if(
                *old(out),
                *final(out),
                *ctx.unit,
                c.info.src@,
                definition_id(*ctx.node) is Some && contains_op(*c.condition, "="@),
                assignment_text(location_text(*ctx.contract, *ctx.node), "a conditional expression"@, spec_node_text(*ctx.unit, c.info.src@)),
                r is Ok,
            ),
    {
        proof { Output::lemma_extends_refl(*out); }
        if !contains_operation(&c.condition, "=") {
            return Ok(());
        }
        self.report(ctx, c.info.src.as_str(), "a conditional expression", c.info.src.as_str(), out)
    }
}

} // verus!
