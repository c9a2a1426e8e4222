//! Public functions that only return a state variable of the same name,
//! which the compiler's own getter already gives.
use vstd::prelude::*;
use crate::analysis::{DefCtx, Output};
use crate::ast::{Expression, FunctionDefinition, Statement, VariableDeclaration, Visibility};
use crate::query::{find_variable, first_variable};
use crate::render::{
    debug_visibility, debug_visibility_text, function_kind_str, function_kind_text, visibility_str,
    visibility_text,
};
use crate::text::str_eq;

verus! {

/// `v` is named as the getter `f` is, or as it is with a `_` before.
pub open spec fn getter_name_matches(v: Seq<char>, f: Seq<char>) -> bool {
    v == f || (v.len() > 0 && v[0] == '_' && v.drop_first() == f)
}

/// The state variable that `f` is a redundant getter for: `f` is public,
/// named, has one return parameter, and its body is only a return of an
/// identifier that names a state variable of `c` with the matching name.
pub open spec fn getter_target(c: crate::ast::ContractDefinition, f: FunctionDefinition) -> Option<VariableDeclaration> {
    if f.name@.len() > 0 && f.return_parameters@.len() == 1 && f.visibility == Visibility::Public {
        match f.body {
            Some(b) => if b.statements@.len() == 1 {
                match b.statements@[0] {
                    Statement::Return(r) => match r.expression {
                        Some(Expression::Identifier(i)) => match first_variable(c, i.referenced_declaration) {
                            Some(v) => if getter_name_matches(v.name@, f.name@) {
                                Some(v)
                            } else {
                                None
                            },
                            None => None,
                        },
                        _ => None,
                    },
                    _ => None,
                }
            } else {
                None
            },
            None => None,
        }
    } else {
        None
    }
}

/// The line printed for a redundant getter `f` of the state variable `v`.
pub open spec fn getter_line(c: crate::ast::ContractDefinition, f: FunctionDefinition, v: VariableDeclaration) -> Seq<char> {
    "\t"@ + debug_visibility_text(f.visibility) + " "@ + c.name@ + "."@ + f.name@ + " "@ + function_kind_text(f.kind)
        + " is a redundant getter function for the "@ + visibility_text(v.visibility) + " "@ + c.name@ + "."@
        + v.name@ + " state variable"@
}

fn name_matches(v: &str, f: &str) -> (r: bool)
    ensures
        r == getter_name_matches(v@, f@),
{
    if str_eq(v, f) {
        return true;
    }
    let n = v.unicode_len();
    if n == 0 || v.get_char(0) != '_' {
        return false;
    }
    let rest = v.substring_char(1, n);
    assert(rest@ =~= v@.drop_first());
    str_eq(rest, f)
}

pub struct RedundantGetterFunctionVisitor {}

impl RedundantGetterFunctionVisitor {
    pub fn new() -> Self {
        RedundantGetterFunctionVisitor {}
    }

    /// Prints a function that is a redundant getter for a state variable.
    pub fn visit_function_definition(&mut self, ctx: &DefCtx, f: &FunctionDefinition, out: &mut Output)
        requires
            old(out).wf(),
        ensures
            final(out).wf(),
            old(out).extends(*final(out)),
            final(out).report == old(out).report,
            final(out).printed@.map_values(|s: String| s@) == match getter_target(*ctx.contract, *f) {
                Some(v) => old(out).printed@.map_values(|s: String| s@).push(getter_line(*ctx.contract, *f, v)),
                None => old(out).printed@.map_values(|s: String| s@),
            },
    {
        proof { Output::lemma_extends_refl(*out); }
        if f.name.unicode_len() == 0 || f.return_parameters.len() != 1 || f.visibility != Visibility::Public {
            return;
        }
        let b = match &f.body {
            Some(b) => b,
            None => return,
        };
        if b.statements.len() != 1 {
            return;
        }
        let id = match &b.statements[0] {
            Statement::Return(r) => match &r.expression {
                Some(Expression::Identifier(i)) => i.referenced_declaration,
                _ => return,
            },
            _ => return,
        };
        let v = match find_variable(ctx.contract, id) {
            Some(v) => v,
            None => return,
        };
        if !name_matches(v.name.as_str(), f.name.as_str()) {
            return;
        }
        let line = String::from_str("\t").concat(debug_visibility(f.visibility)).concat(" ").concat(
            ctx.contract.name.as_str(),
        ).concat(".").concat(f.name.as_str()).concat(" ").concat(function_kind_str(f.kind)).concat(
            " is a redundant getter function for the ",
        ).concat(visibility_str(v.visibility)).concat(" ").concat(ctx.contract.name.as_str()).concat(".").concat(
            v.name.as_str(),
        ).concat(" state variable");
        out.print(line);
        assert(out.printed@.map_values(|s: String| s@) =~= old(out).printed@.map_values(|s: String| s@).push(
            getter_line(*ctx.contract, *f, *v),
        ));
    }
}

} // verus!
