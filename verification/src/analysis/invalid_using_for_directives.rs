//! `using L for T` directives where the library has no function that takes
//! a `T` (or a contract `T` inherits from) first.
use vstd::prelude::*;
use crate::analysis::{printed_at_if, DefCtx, Output};
use crate::ast::{ContractDefinition, ContractDefinitionNode, FunctionDefinition, NodeId, TypeName, UsingForDirective};
use crate::query::{contains_id, find_contract, first_contract, same_type, same_type_name};
use crate::render::{contract_kind_str, contract_kind_text, node_text, spec_node_text, AnalysisError};

verus! {

/// The function `f` can be used for the type `t`: its first parameter has
/// type `t`, or a contract that `for_contract` inherits from.
pub open spec fn usable_for(f: FunctionDefinition, t: TypeName, for_contract: Option<ContractDefinition>) -> bool {
    &&& f.parameters@.len() > 0
    &&& f.parameters@[0].ty matches Some(pt)
    &&& (same_type(pt, t) || (pt matches TypeName::UserDefinedTypeName { referenced_declaration: rd, .. }
        && for_contract matches Some(fc) && fc.linearized_base_contracts matches Some(bases) && bases@.contains(rd)))
}

/// The library has a function usable for `t`.
pub open spec fn library_usable(lib: ContractDefinition, t: TypeName, for_contract: Option<ContractDefinition>) -> bool {
    exists|k: int|
        0 <= k < lib.nodes@.len() && (#[trigger] lib.nodes@[k] matches ContractDefinitionNode::FunctionDefinition(f)
            && usable_for(f, t, for_contract))
}

/// The contract a type names, where it names one.
pub open spec fn type_contract(units: Seq<crate::ast::SourceUnit>, t: TypeName) -> Option<ContractDefinition> {
    match t {
        TypeName::UserDefinedTypeName { referenced_declaration: id, .. } => first_contract(units, id),
        _ => None,
    }
}

/// The directive names a library that is found, and a type, and the library
/// has no function usable for that type.
pub open spec fn is_invalid_using(units: Seq<crate::ast::SourceUnit>, u: UsingForDirective) -> bool {
    &&& u.library_declaration matches Some(id)
    &&& first_contract(units, id) matches Some(lib)
    &&& u.ty matches Some(t)
    &&& !library_usable(lib, t, type_contract(units, t))
}

fn usable(f: &FunctionDefinition, t: &TypeName, for_contract: Option<&ContractDefinition>) -> (r: bool)
    ensures
        r == usable_for(*f, *t, match for_contract { Some(c) => Some(*c), None => None }),
{
    if f.parameters.len() == 0 {
        return false;
    }
    let pt = match &f.parameters[0].ty {
        Some(pt) => pt,
        None => return false,
    };
    if same_type_name(pt, t) {
        return true;
    }
    match pt {
        TypeName::UserDefinedTypeName { referenced_declaration: rd, .. } => match for_contract {
            Some(fc) => match &fc.linearized_base_contracts {
                Some(bases) => contains_id(bases, *rd),
                None => false,
            },
            None => false,
        },
        _ => false,
    }
}

pub struct InvalidUsingForDirectivesVisitor {}

impl InvalidUsingForDirectivesVisitor {
    pub fn new() -> Self {
        InvalidUsingForDirectivesVisitor {}
    }

    /// Prints a using-for directive whose library has no usable function.
    pub fn visit_using_for_directive(&mut self, ctx: &DefCtx, u: &UsingForDirective, out: &mut Output) -> (r: Result<
        (),
        AnalysisError,
    >)
        requires
            old(out).wf(),
        ensures
            final(out).wf(),
            old(out).extends(*final(out)),
            printed_at_if(
                *old(out),
                *final(out),
                *ctx.unit,
                u.info.src@,
                is_invalid_using(ctx.units@, *u),
                "The `"@ + ctx.contract.name@ + "` "@ + contract_kind_text(ctx.contract.kind)
                    + " contains an invalid using-for directive: `"@ + spec_node_text(*ctx.unit, u.info.src@) + "`"@,
                r is Ok,
            ),
    {
        proof { Output::lemma_extends_refl(*out); }
        let id = match u.library_declaration {
            Some(id) => id,
            None => return Ok(()),
        };
        let lib = match find_contract(ctx.units, id) {
            Some(l) => l,
            None => return Ok(()),
        };
        let t = match &u.ty {
            Some(t) => t,
            None => return Ok(()),
        };
        let for_contract = match t {
            TypeName::UserDefinedTypeName { referenced_declaration: rd, .. } => find_contract(ctx.units, *rd),
            _ => None,
        };
        assert(match for_contract { Some(c) => Some(*c), None => None::<ContractDefinition> } == type_contract(ctx.units@, *t));
        let n = lib.nodes.len();
        let mut k: usize = 0;
        while k < n
            invariant
                n == lib.nodes@.len(),
                k <= n,
                out.wf(),
                *out == *old(out),
                u.library_declaration == Some(id),
                first_contract(ctx.units@, id) == Some(*lib),
                u.ty == Some(*t),
                (match for_contract { Some(c) => Some(*c), None => None::<ContractDefinition> }) == type_contract(ctx.units@, *t),
                forall|j: int|
                    0 <= j < k ==> !(#[trigger] lib.nodes@[j] matches ContractDefinitionNode::FunctionDefinition(f)
                        && usable_for(f, *t, match for_contract { Some(c) => Some(*c), None => None })),
            decreases n - k,
        {
            if let ContractDefinitionNode::FunctionDefinition(f) = &lib.nodes[k] {
                if usable(f, t, for_contract) {
                    assert(lib.nodes@[k as int] matches ContractDefinitionNode::FunctionDefinition(g) && usable_for(
                        g,
                        *t,
                        type_contract(ctx.units@, *t),
                    ));
                    return Ok(());
                }
            }
            k = k + 1;
        }
        let msg = String::from_str("The `").concat(ctx.contract.name.as_str()).concat("` ").concat(
            contract_kind_str(ctx.contract.kind),
        ).concat(" contains an invalid using-for directive: `").concat(node_text(ctx.unit, u.info.src.as_str()).as_str()).concat(
            "`",
        );
        out.print_at(ctx.unit, u.info.src.as_str(), msg)
    }
}

} // verus!
