//! Public functions without modifiers whose body only assigns.
use vstd::prelude::*;
use crate::analysis::{reported_at_if, DefCtx, Output};
use crate::ast::{Expression, FunctionDefinition, FunctionKind, StateMutability, Statement, Visibility};
use crate::render::{definition_node_location, location_text, AnalysisError};

verus! {

pub open spec fn is_assignment_statement(s: Statement) -> bool {
    s matches Statement::ExpressionStatement { expression: Expression::Assignment(_) }
}

/// A callable, state-changing function without modifiers whose body is a
/// non-empty list of assignments.
pub open spec fn spec_unrestricted_setter(f: FunctionDefinition) -> bool {
    &&& f.kind != FunctionKind::Constructor
    &&& f.visibility != Visibility::Private && f.visibility != Visibility::Internal
    &&& f.state_mutability != StateMutability::Pure && f.state_mutability != StateMutability::View
    &&& f.modifiers@.len() == 0
    &&& f.body matches Some(b) && b.statements@.len() > 0
        && forall|i: int| 0 <= i < b.statements@.len() ==> is_assignment_statement(#[trigger] b.statements@[i])
}

pub fn is_unrestricted_setter(f: &FunctionDefinition) -> (r: bool)
    ensures
        r == spec_unrestricted_setter(*f),
{
    if f.kind == FunctionKind::Constructor || f.visibility == Visibility::Private || f.visibility == Visibility::Internal {
        return false;
    }
    if f.state_mutability == StateMutability::Pure || f.state_mutability == StateMutability::View {
        return false;
    }
    if f.modifiers.len() != 0 {
        return false;
    }
    let b = match &f.body {
        Some(b) => b,
        None => return false,
    };
    let n = b.statements.len();
    if n == 0 {
        return false;
    }
    let mut i: usize = 0;
    while i < n
        invariant
            f.body == Some(*b),
            n == b.statements@.len(),
            i <= n,
            forall|j: int| 0 <= j < i ==> is_assignment_statement(#[trigger] b.statements@[j]),
        decreases n - i,
    {
        match &b.statements[i] {
            Statement::ExpressionStatement { expression: Expression::Assignment(_) } => {},
            _ => return false,
        }
        i = i + 1;
    }
    true
}

pub struct UnrestrictedSetterFunctionsVisitor {}

impl UnrestrictedSetterFunctionsVisitor {
    pub fn new() -> Self {
        UnrestrictedSetterFunctionsVisitor {}
    }

    pub fn visit_function_definition(&mut self, ctx: &DefCtx, f: &FunctionDefinition, out: &mut Output) -> (r: Result<(), AnalysisError>)
        requires
            old(out).wf(),
        ensures
            final(out).wf(),
            old(out).extends(*final(out)),
            reported_at_if(
                *old(out),
                *final(out),
                *ctx.unit,
                f.info.src@,
                spec_unrestricted_setter(*f),
                location_text(*ctx.contract, *ctx.node) + " is an unprotected setter function"@,
                r is Ok,
            ),
    {
        proof { Output::lemma_extends_refl(*out); }
        if is_unrestricted_setter(f) {
            let msg = definition_node_location(ctx.contract, ctx.node).concat(" is an unprotected setter function");
            return out.add_at(ctx.unit, f.info.src.as_str(), msg);
        }
        Ok(())
    }
}

} // verus!
