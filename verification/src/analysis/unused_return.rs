//! Calls whose returned values are dropped.
use vstd::prelude::*;
use crate::analysis::{only_under, reported_at_if, unit_path, DefCtx, Output};
use crate::ast::{ContractDefinition, Expression, FunctionDefinition, FunctionKind, NodeId, SourceUnit, Statement, Visibility};
use crate::query::{find_function_and_contract, first_function, root_expression, root_of};
use crate::render::{definition_node_location, location_text, qualified, visibility_text, AnalysisError};

verus! {

/// For an expression statement that calls a function named by the root of
/// its callee, the declaration the root refers to.
pub open spec fn spec_called_declaration(s: Statement) -> Option<NodeId> {
    match s {
        Statement::ExpressionStatement { expression: Expression::FunctionCall(f) } => match root_of(*f.expression) {
            Some(Expression::Identifier(i)) => Some(i.referenced_declaration),
            Some(Expression::MemberAccess(m)) => m.referenced_declaration,
            _ => None,
        },
        _ => None,
    }
}

pub fn called_declaration(s: &Statement) -> (r: Option<(NodeId, &str)>)
    ensures
        match r {
            Some(p) => {
                &&& spec_called_declaration(*s) == Some(p.0)
                &&& *s matches Statement::ExpressionStatement { expression: Expression::FunctionCall(f) }
                &&& f.info.src@ == p.1@
            },
            None => spec_called_declaration(*s) is None,
        },
{
    match s {
        Statement::ExpressionStatement { expression: Expression::FunctionCall(f) } => {
            match root_expression(&f.expression) {
                Some(Expression::Identifier(i)) => Some((i.referenced_declaration, f.info.src.as_str())),
                Some(Expression::MemberAccess(m)) => match m.referenced_declaration {
                    Some(id) => Some((id, f.info.src.as_str())),
                    None => None,
                },
                _ => None,
            }
        },
        _ => None,
    }
}

/// The source range of the call an expression statement makes.
pub open spec fn call_src(s: Statement) -> Seq<char> {
    match s {
        Statement::ExpressionStatement { expression: Expression::FunctionCall(f) } => f.info.src@,
        _ => Seq::empty(),
    }
}

/// The called function, with its contract, where the statement drops values
/// it returns.
pub open spec fn dropped_return(units: Seq<SourceUnit>, s: Statement) -> Option<(ContractDefinition, FunctionDefinition)> {
    match spec_called_declaration(s) {
        Some(id) => match first_function(units, id) {
            Some(p) => if p.1.return_parameters@.len() > 0 {
                Some(p)
            } else {
                None
            },
            None => None,
        },
        None => None,
    }
}

/// The lower-cased debug name of a function kind.
pub open spec fn kind_lower_text(k: FunctionKind) -> Seq<char> {
    match k {
        FunctionKind::Constructor => "constructor"@,
        FunctionKind::Function => "function"@,
        FunctionKind::Receive => "receive"@,
        FunctionKind::Fallback => "fallback"@,
        FunctionKind::FreeFunction => "freefunction"@,
    }
}

/// The finding for a call that drops what `f` of `c` returns.
pub open spec fn dropped_text(ctx_contract: ContractDefinition, node: crate::ast::ContractDefinitionNode, c: ContractDefinition, f: FunctionDefinition) -> Seq<char> {
    location_text(ctx_contract, node) + " makes a call to the "@ + visibility_text(f.visibility) + " `"@ + qualified(
        c.name@,
        f.name@,
    ) + "` "@ + kind_lower_text(f.kind) + ", ignoring the returned "@ + if f.return_parameters@.len() == 1 {
        "value"@
    } else {
        "values"@
    }
}

/// The lower-cased debug name of a visibility.
pub fn visibility_lower(v: Visibility) -> (r: &'static str)
    ensures
        r@ == visibility_text(v),
{
    match v {
        Visibility::Public => "public",
        Visibility::Private => "private",
        Visibility::Internal => "internal",
        Visibility::External => "external",
    }
}

/// The lower-cased debug name of a function kind.
pub fn function_kind_lower(k: FunctionKind) -> (r: &'static str)
    ensures
        r@ == kind_lower_text(k),
{
    match k {
        FunctionKind::Constructor => "constructor",
        FunctionKind::Function => "function",
        FunctionKind::Receive => "receive",
        FunctionKind::Fallback => "fallback",
        FunctionKind::FreeFunction => "freefunction",
    }
}

pub struct UnusedReturnVisitor {}

impl UnusedReturnVisitor {
    pub fn new() -> Self {
        UnusedReturnVisitor {}
    }

    pub fn visit_statement(&mut self, ctx: &DefCtx, s: &Statement, out: &mut Output) -> (r: Result<(), AnalysisError>)
        requires
            old(out).wf(),
        ensures
            final(out).wf(),
            old(out).extends(*final(out)),
            reported_at_if(
                *old(out),
                *final(out),
                *ctx.unit,
                call_src(*s),
                dropped_return(ctx.units@, *s) is Some,
                dropped_text(*ctx.contract, *ctx.node, dropped_return(ctx.units@, *s)->Some_0.0, dropped_return(ctx.units@, *s)->Some_0.1),
                r is Ok,
            ),
            only_under(*old(out), *final(out), unit_path(*ctx.unit)),
    {
        proof { Output::lemma_extends_refl(*out); }
        let (id, src) = match called_declaration(s) {
            Some(p) => p,
            None => return Ok(()),
        };
        if let Some((c, f)) = find_function_and_contract(ctx.units, id) {
            if f.return_parameters.len() > 0 {
                let name = crate::render::qualify(&c.name, &f.name);
                let msg = definition_node_location(ctx.contract, ctx.node).concat(" makes a call to the ").concat(
                    visibility_lower(f.visibility),
                ).concat(" `").concat(name.as_str()).concat("` ").concat(function_kind_lower(f.kind)).concat(
                    ", ignoring the returned ",
                ).concat(
                    if f.return_parameters.len() == 1 {
                        "value"
                    } else {
                        "values"
                    },
                );
                assert(msg@ =~= dropped_text(*ctx.contract, *ctx.node, *c, *f));
                return out.add_at(ctx.unit, src, msg);
            }
        }
        Ok(())
    }
}

} // verus!
