//! State variables that no function or modifier refers to.
use vstd::prelude::*;
use crate::analysis::{lemma_extends_chain, DefCtx, Output, UnitCtx};
use crate::ast::{ContractDefinition, ContractDefinitionNode, FunctionKind, Identifier, MemberAccess, Mutability, NodeId};
use crate::ast::VariableDeclaration;
use crate::query::{find_variable, first_variable};
use crate::render::{
    decimal_digits, spec_source_line, type_name_string, type_name_text, visibility_str, visibility_text, AnalysisError,
};

verus! {

broadcast use lemma_extends_chain;

/// A reference made from a function that is not a constructor, or from a modifier.
pub open spec fn counts_as_use(node: ContractDefinitionNode) -> bool {
    match node {
        ContractDefinitionNode::FunctionDefinition(f) => f.kind != FunctionKind::Constructor,
        ContractDefinitionNode::ModifierDefinition(_) => true,
        _ => false,
    }
}

/// The state variable a record names, where the record is of contract `c`,
/// was never referenced, and names a variable of `c` with a type that is not
/// declared constant.
pub open spec fn unreferenced_variable(c: ContractDefinition, e: (NodeId, NodeId, bool)) -> Option<VariableDeclaration> {
    if e.0 == c.info.id && !e.2 {
        match first_variable(c, e.1) {
            Some(v) => if v.mutability != Some(Mutability::Constant) && v.ty is Some {
                Some(v)
            } else {
                None
            },
            None => None,
        }
    } else {
        None
    }
}

pub open spec fn unreferenced_text(c: ContractDefinition, v: VariableDeclaration) -> Seq<char> {
    "The "@ + visibility_text(v.visibility) + " `"@ + c.name@ + "."@ + v.name@ + "` "@ + type_name_text(v.ty->Some_0)
        + " state variable is never referenced"@
}

/// The lines that leaving `c` prints for the records `vars`, in order; the
/// error of the first whose line cannot be found.
pub open spec fn unreferenced_lines(unit: crate::ast::SourceUnit, c: ContractDefinition, vars: Seq<(NodeId, NodeId, bool)>) -> Result<
    Seq<Seq<char>>,
    AnalysisError,
>
    decreases vars.len(),
{
    if vars.len() == 0 {
        Ok(Seq::empty())
    } else {
        match unreferenced_lines(unit, c, vars.drop_last()) {
            Err(x) => Err(x),
            Ok(ls) => match unreferenced_variable(c, vars.last()) {
                Some(v) => match spec_source_line(unit, v.info.src@) {
                    Ok(l) => Ok(ls.push("\tL"@ + decimal_digits(l as nat) + ": "@ + unreferenced_text(c, v))),
                    Err(x) => Err(x),
                },
                None => Ok(ls),
            },
        }
    }
}

proof fn lemma_unreferenced_lines_err(
    unit: crate::ast::SourceUnit,
    c: ContractDefinition,
    vars: Seq<(NodeId, NodeId, bool)>,
    k: int,
)
    requires
        0 <= k <= vars.len(),
        unreferenced_lines(unit, c, vars.take(k)) is Err,
    ensures
        unreferenced_lines(unit, c, vars) is Err,
    decreases vars.len() - k,
{
    if k < vars.len() {
        assert(vars.take(k + 1).drop_last() =~= vars.take(k));
        lemma_unreferenced_lines_err(unit, c, vars, k + 1);
    } else {
        assert(vars.take(k) =~= vars);
    }
}

pub struct UnusedStateVariablesVisitor {
    /// The contracts walked.
    pub contracts: Vec<NodeId>,
    /// The state variables of each contract: (contract, variable, referenced).
    pub variables: Vec<(NodeId, NodeId, bool)>,
}

impl UnusedStateVariablesVisitor {
    pub fn new() -> (r: Self)
        ensures
            r.contracts@.len() == 0,
            r.variables@.len() == 0,
    {
        UnusedStateVariablesVisitor { contracts: Vec::new(), variables: Vec::new() }
    }

    pub open spec fn has_variable(&self, c: NodeId, v: NodeId) -> bool {
        exists|k: int| 0 <= k < self.variables@.len() && (#[trigger] self.variables@[k]).0 == c && self.variables@[k].1 == v
    }

    /// Starts the record of a contract.
    pub fn visit_contract_definition(&mut self, c: &ContractDefinition)
        ensures
            final(self).contracts@.contains(c.info.id),
            final(self).variables == old(self).variables,
    {
        let mut k: usize = 0;
        while k < self.contracts.len()
            invariant
                k <= self.contracts@.len(),
            decreases self.contracts@.len() - k,
        {
            if self.contracts[k] == c.info.id {
                assert(self.contracts@[k as int] == c.info.id);
                return;
            }
            k = k + 1;
        }
        self.contracts.push(c.info.id);
        assert(self.contracts@[self.contracts@.len() - 1] == c.info.id);
    }

    /// Records a state variable, not yet referenced, the first time it is seen.
    pub fn visit_variable_declaration(&mut self, ctx: &DefCtx)
        ensures
            final(self).contracts == old(self).contracts,
            match *ctx.node {
                ContractDefinitionNode::VariableDeclaration(v) => {
                    &&& final(self).has_variable(ctx.contract.info.id, v.info.id)
                    &&& old(self).has_variable(ctx.contract.info.id, v.info.id) ==> final(self).variables == old(self).variables
                    &&& !old(self).has_variable(ctx.contract.info.id, v.info.id) ==> final(self).variables@ == old(
                        self,
                    ).variables@.push((ctx.contract.info.id, v.info.id, false))
                },
                _ => final(self).variables == old(self).variables,
            },
    {
        if let ContractDefinitionNode::VariableDeclaration(v) = ctx.node {
            let cid = ctx.contract.info.id;
            let mut k: usize = 0;
            while k < self.variables.len()
                invariant
                    k <= self.variables@.len(),
                    *self == *old(self),
                    *ctx.node == ContractDefinitionNode::VariableDeclaration(*v),
                    cid == ctx.contract.info.id,
                    forall|j: int| 0 <= j < k ==> !(self.variables@[j].0 == cid && self.variables@[j].1 == v.info.id),
                decreases self.variables@.len() - k,
            {
                if self.variables[k].0 == cid && self.variables[k].1 == v.info.id {
                    assert(self.variables@[k as int].0 == cid && self.variables@[k as int].1 == v.info.id);
                    return;
                }
                k = k + 1;
            }
            self.variables.push((cid, v.info.id, false));
            assert(self.variables@[self.variables@.len() - 1] == (cid, v.info.id, false));
            assert(self.has_variable(cid, v.info.id));
        }
    }

    fn mark(&mut self, ctx: &DefCtx, id: NodeId)
        ensures
            final(self).contracts == old(self).contracts,
            final(self).variables@.len() == old(self).variables@.len(),
            forall|k: int| 0 <= k < final(self).variables@.len() ==> (#[trigger] final(self).variables@[k]) == if counts_as_use(*ctx.node)
                && old(self).variables@[k].0 == ctx.contract.info.id && old(self).variables@[k].1 == id {
                (old(self).variables@[k].0, old(self).variables@[k].1, true)
            } else {
                old(self).variables@[k]
            },
    {
        let uses = match ctx.node {
            ContractDefinitionNode::FunctionDefinition(f) => f.kind != FunctionKind::Constructor,
            ContractDefinitionNode::ModifierDefinition(_) => true,
            _ => false,
        };
        let cid = ctx.contract.info.id;
        let mut k: usize = 0;
        while k < self.variables.len()
            invariant
                k <= self.variables@.len(),
                self.contracts == old(self).contracts,
                self.variables@.len() == old(self).variables@.len(),
                uses == counts_as_use(*ctx.node),
                forall|j: int| 0 <= j < self.variables@.len() ==> (#[trigger] self.variables@[j]) == if j < k && uses
                    && old(self).variables@[j].0 == cid && old(self).variables@[j].1 == id {
                    (old(self).variables@[j].0, old(self).variables@[j].1, true)
                } else {
                    old(self).variables@[j]
                },
            decreases self.variables@.len() - k,
        {
            let e = self.variables[k];
            if uses && e.0 == cid && e.1 == id {
                self.variables.set(k, (e.0, e.1, true));
            }
            k = k + 1;
        }
    }

    /// Marks the state variable an identifier refers to as referenced.
    /// `after` is `before` having seen, in the definition walked, a
    /// reference to `id`, where there is one.
    pub open spec fn marked(before: Self, after: Self, ctx: DefCtx, id: Option<NodeId>) -> bool {
        &&& after.contracts == before.contracts
        &&& after.variables@.len() == before.variables@.len()
        &&& forall|k: int| 0 <= k < after.variables@.len() ==> (#[trigger] after.variables@[k]) == if counts_as_use(*ctx.node)
            && before.variables@[k].0 == ctx.contract.info.id && id == Some(before.variables@[k].1) {
            (before.variables@[k].0, before.variables@[k].1, true)
        } else {
            before.variables@[k]
        }
    }

    pub fn visit_identifier(&mut self, ctx: &DefCtx, i: &Identifier)
        ensures
            Self::marked(*old(self), *final(self), *ctx, Some(i.referenced_declaration)),
    {
        self.mark(ctx, i.referenced_declaration)
    }

    /// Marks the state variable a member access refers to as referenced.
    pub fn visit_member_access(&mut self, ctx: &DefCtx, m: &MemberAccess)
        ensures
            Self::marked(*old(self), *final(self), *ctx, m.referenced_declaration),
    {
        match m.referenced_declaration {
            Some(id) => self.mark(ctx, id),
            None => {},
        }
    }

    /// Prints each state variable of the contract being left, unless a
    /// constant, that was never referenced.
    pub fn leave_contract_definition(&mut self, ctx: &UnitCtx, c: &ContractDefinition, out: &mut Output) -> (r: Result<(), AnalysisError>)
        requires
            old(out).wf(),
        ensures
            final(out).wf(),
            old(out).extends(*final(out)),
            *final(self) == *old(self),
            final(out).report == old(out).report,
            match unreferenced_lines(*ctx.unit, *c, old(self).variables@) {
                Ok(ls) => r is Ok && final(out).printed@.map_values(|s: String| s@) == old(out).printed@.map_values(
                    |s: String| s@,
                ) + ls,
                Err(_) => r is Err,
            },
    {
        proof { Output::lemma_extends_refl(*out); }
        let ghost start = old(out).printed@.map_values(|s: String| s@);
        let cid = c.info.id;
        let mut k: usize = 0;
        assert(self.variables@.take(0) =~= Seq::<(NodeId, NodeId, bool)>::empty());
        assert(start + Seq::<Seq<char>>::empty() =~= start);
        while k < self.variables.len()
            invariant
                k <= self.variables@.len(),
                cid == c.info.id,
                out.wf(),
                old(out).extends(*out),
                out.report == old(out).report,
                *self == *old(self),
                start == old(out).printed@.map_values(|s: String| s@),
                unreferenced_lines(*ctx.unit, *c, self.variables@.take(k as int)) matches Ok(ls)
                    && out.printed@.map_values(|s: String| s@) == start + ls,
            decreases self.variables@.len() - k,
        {
            assert(self.variables@.take(k + 1).drop_last() =~= self.variables@.take(k as int));
            assert(self.variables@.take(k + 1).last() == self.variables@[k as int]);
            let e = self.variables[k];
            if e.0 == cid && !e.2 {
                if let Some(v) = find_variable(c, e.1) {
                    let constant = match v.mutability {
                        Some(Mutability::Constant) => true,
                        _ => false,
                    };
                    if !constant {
                        if let Some(t) = &v.ty {
                            let msg = String::from_str("The ").concat(visibility_str(v.visibility)).concat(" `").concat(
                                c.name.as_str(),
                            ).concat(".").concat(v.name.as_str()).concat("` ").concat(type_name_string(t).as_str()).concat(
                                " state variable is never referenced",
                            );
                            assert(msg@ =~= unreferenced_text(*c, *v));
                            let ghost before = out.printed@;
                            let res = out.print_at(ctx.unit, v.info.src.as_str(), msg);
                            if res.is_err() {
                                proof {
                                    lemma_unreferenced_lines_err(*ctx.unit, *c, self.variables@, k as int + 1);
                                }
                                return res;
                            }
                            assert(out.printed@.map_values(|s: String| s@) =~= before.map_values(|s: String| s@).push(
                                out.printed@.last()@,
                            ));
                        }
                    }
                }
            }
            k = k + 1;
        }
        assert(self.variables@.take(self.variables@.len() as int) =~= self.variables@);
        Ok(())
    }
}

} // verus!
