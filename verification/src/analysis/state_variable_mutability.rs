//! State variables that are never assigned outside the constructor, and so
//! could be declared `constant` or `immutable`.
use vstd::prelude::*;
use crate::analysis::{lemma_extends_chain, unit_path, DefCtx, Output, UnitCtx};
use crate::ast::{
    Assignment, ContractDefinition, ContractDefinitionNode, Expression, FunctionCall, FunctionDefinition, FunctionKind,
    Mutability, NodeId, StorageLocation, TypeName, UnaryOperation, VariableDeclaration,
};
use crate::query::{assigned_vars, find_variable, first_variable, get_assigned_state_variables, referenced_declarations, refs};
use crate::render::{spec_source_line, type_name_string, type_name_text, visibility_str, visibility_text, AnalysisError};
use crate::report::EntryView;
use crate::text::str_eq;

verus! {

broadcast use lemma_extends_chain;

/// The definition walked is a constructor.
pub open spec fn in_constructor(node: ContractDefinitionNode) -> bool {
    node matches ContractDefinitionNode::FunctionDefinition(f) && f.kind == FunctionKind::Constructor
}

/// A state variable that the analysis never suggests changing: declared
/// constant or immutable already, or of type `bytes` or `string`.
pub open spec fn exempt(v: VariableDeclaration) -> bool {
    v.mutability == Some(Mutability::Constant) || v.mutability == Some(Mutability::Immutable) || v.constant || (
    v.ty matches Some(TypeName::ElementaryTypeName { name }) && (name@ == "bytes"@ || name@ == "string"@))
}

pub open spec fn mutability_text(c: ContractDefinition, v: VariableDeclaration, constant: bool) -> Seq<char> {
    "The "@ + visibility_text(v.visibility) + " `"@ + c.name@ + "."@ + v.name@ + "` "@ + type_name_text(v.ty->Some_0)
        + " state variable can be declared `"@ + if constant {
        "constant"@
    } else {
        "immutable"@
    } + "`"@
}

/// The state variable a record names, where the record is of contract `c`,
/// the variable is never assigned outside a constructor, is declared by `c`
/// with a type, and is not exempt.
pub open spec fn unassigned_variable(c: ContractDefinition, e: (NodeId, NodeId, bool, bool)) -> Option<VariableDeclaration> {
    if e.0 == c.info.id && !e.2 {
        match first_variable(c, e.1) {
            Some(v) => if !exempt(v) && v.ty is Some {
                Some(v)
            } else {
                None
            },
            None => None,
        }
    } else {
        None
    }
}

/// The findings that leaving `c` files for the records `vars`, in order; the
/// error of the first whose line cannot be found.
pub open spec fn mutability_entries(unit: crate::ast::SourceUnit, c: ContractDefinition, vars: Seq<(NodeId, NodeId, bool, bool)>) -> Result<
    Seq<EntryView>,
    AnalysisError,
>
    decreases vars.len(),
{
    if vars.len() == 0 {
        Ok(Seq::empty())
    } else {
        match mutability_entries(unit, c, vars.drop_last()) {
            Err(x) => Err(x),
            Ok(es) => match unassigned_variable(c, vars.last()) {
                Some(v) => match spec_source_line(unit, v.info.src@) {
                    Ok(l) => Ok(es.push((Some(l as usize), mutability_text(c, v, vars.last().3)))),
                    Err(x) => Err(x),
                },
                None => Ok(es),
            },
        }
    }
}

pub struct StateVariableMutabilityVisitor {
    /// The contracts walked.
    pub contracts: Vec<NodeId>,
    /// The state variables of each contract: (contract, variable, assigned,
    /// has an initial value).
    pub variables: Vec<(NodeId, NodeId, bool, bool)>,
    /// Storage locals bound to state variables: (contract, variable, local).
    pub aliases: Vec<(NodeId, NodeId, NodeId)>,
}

impl StateVariableMutabilityVisitor {
    /// A variable is recorded once per contract.
    pub open spec fn wf(&self) -> bool {
        forall|i: int, j: int|
            0 <= i < j < self.variables@.len() ==> !((#[trigger] self.variables@[i]).0 == (#[trigger] self.variables@[j]).0
                && self.variables@[i].1 == self.variables@[j].1)
    }

    pub open spec fn has_variable(&self, c: NodeId, v: NodeId) -> bool {
        exists|k: int| 0 <= k < self.variables@.len() && (#[trigger] self.variables@[k]).0 == c && self.variables@[k].1 == v
    }

    pub open spec fn is_assigned(&self, c: NodeId, v: NodeId) -> bool {
        exists|k: int|
            0 <= k < self.variables@.len() && (#[trigger] self.variables@[k]).0 == c && self.variables@[k].1 == v
                && self.variables@[k].2
    }

    pub fn new() -> (r: Self)
        ensures
            r.wf(),
            r.contracts@.len() == 0,
            r.variables@.len() == 0,
            r.aliases@.len() == 0,
    {
        StateVariableMutabilityVisitor { contracts: Vec::new(), variables: Vec::new(), aliases: Vec::new() }
    }

    fn has_contract(&self, c: NodeId) -> (r: bool)
        ensures
            r == self.contracts@.contains(c),
    {
        let mut k: usize = 0;
        while k < self.contracts.len()
            invariant
                k <= self.contracts@.len(),
                forall|j: int| 0 <= j < k ==> self.contracts@[j] != c,
            decreases self.contracts@.len() - k,
        {
            if self.contracts[k] == c {
                assert(self.contracts@[k as int] == c);
                return true;
            }
            k = k + 1;
        }
        false
    }

    fn find_variable_entry(&self, c: NodeId, v: NodeId) -> (r: Option<usize>)
        ensures
            r matches Some(k) ==> k < self.variables@.len() && self.variables@[k as int].0 == c && self.variables@[k as int].1 == v,
            r is None ==> !self.has_variable(c, v),
    {
        let mut k: usize = 0;
        while k < self.variables.len()
            invariant
                k <= self.variables@.len(),
                forall|j: int| 0 <= j < k ==> !(self.variables@[j].0 == c && self.variables@[j].1 == v),
            decreases self.variables@.len() - k,
        {
            if self.variables[k].0 == c && self.variables[k].1 == v {
                return Some(k);
            }
            k = k + 1;
        }
        None
    }

    /// Starts the record of a contract.
    pub fn visit_contract_definition(&mut self, c: &ContractDefinition)
        ensures
            final(self).contracts@.contains(c.info.id),
            forall|x: NodeId| old(self).contracts@.contains(x) ==> #[trigger] final(self).contracts@.contains(x),
            final(self).variables == old(self).variables,
            final(self).aliases == old(self).aliases,
    {
        if !self.has_contract(c.info.id) {
            self.contracts.push(c.info.id);
            assert(self.contracts@[self.contracts@.len() - 1] == c.info.id);
            assert forall|x: NodeId| old(self).contracts@.contains(x) implies #[trigger] self.contracts@.contains(x) by {
                let j = choose|j: int| 0 <= j < old(self).contracts@.len() && old(self).contracts@[j] == x;
                assert(self.contracts@[j] == x);
            }
        }
    }

    /// The bindings of the storage local `local` to each of `ids` that is a
    /// recorded state variable of contract `c`, in order.
    pub open spec fn bound_aliases(&self, c: NodeId, ids: Seq<NodeId>, local: NodeId) -> Seq<(NodeId, NodeId, NodeId)>
        decreases ids.len(),
    {
        if ids.len() == 0 {
            Seq::empty()
        } else {
            self.bound_aliases(c, ids.drop_last(), local) + if self.has_variable(c, ids.last()) {
                seq![(c, ids.last(), local)]
            } else {
                Seq::empty()
            }
        }
    }

    /// `after` is `before` having visited the declaration `v` at `ctx`: a state
    /// variable of a contract walked is recorded once, unassigned, noting
    /// whether it has an initial value; in a function or modifier, a storage
    /// local with a value is bound to each recorded state variable of the
    /// contract its value refers to; nothing else changes.
    pub open spec fn declared(before: Self, after: Self, ctx: DefCtx, v: VariableDeclaration) -> bool {
        let cid = ctx.contract.info.id;
        &&& after.contracts == before.contracts
        &&& !before.contracts@.contains(cid) ==> after == before
        &&& before.contracts@.contains(cid) ==> match *ctx.node {
            ContractDefinitionNode::VariableDeclaration(_) => {
                &&& after.aliases == before.aliases
                &&& before.has_variable(cid, v.info.id) ==> after.variables == before.variables
                &&& !before.has_variable(cid, v.info.id) ==> after.variables@ == before.variables@.push(
                    (cid, v.info.id, false, v.value is Some),
                )
            },
            ContractDefinitionNode::FunctionDefinition(_) | ContractDefinitionNode::ModifierDefinition(_) => {
                &&& after.variables == before.variables
                &&& after.aliases@ == before.aliases@ + if v.storage_location == StorageLocation::Storage && v.value is Some {
                    before.bound_aliases(cid, refs(v.value->Some_0), v.info.id)
                } else {
                    Seq::empty()
                }
            },
            _ => after == before,
        }
    }

    /// Records a state variable of a contract walked; or, in a function or
    /// modifier, a storage local whose value refers to a state variable as
    /// bound to it.
    pub fn visit_variable_declaration(&mut self, ctx: &DefCtx, v: &VariableDeclaration)
        requires
            old(self).wf(),
        ensures
            Self::declared(*old(self), *final(self), *ctx, *v),
            final(self).wf(),
            final(self).contracts == old(self).contracts,
            forall|c: NodeId, x: NodeId| #[trigger] final(self).is_assigned(c, x) == old(self).is_assigned(c, x),
            (old(self).contracts@.contains(ctx.contract.info.id) && *ctx.node is VariableDeclaration)
                ==> final(self).has_variable(ctx.contract.info.id, v.info.id),
            forall|c: NodeId, x: NodeId| old(self).has_variable(c, x) ==> #[trigger] final(self).has_variable(c, x),
    {
        let cid = ctx.contract.info.id;
        if !self.has_contract(cid) {
            return;
        }
        match ctx.node {
            ContractDefinitionNode::VariableDeclaration(_) => {
                if self.find_variable_entry(cid, v.info.id).is_none() {
                    let ghost before = *self;
                    self.variables.push((cid, v.info.id, false, v.value.is_some()));
                    proof {
                        let n = before.variables@.len() as int;
                        assert(self.variables@[n].0 == cid && self.variables@[n].1 == v.info.id);
                        assert forall|c: NodeId, x: NodeId| #[trigger] self.is_assigned(c, x) == before.is_assigned(c, x) by {
                            if self.is_assigned(c, x) {
                                let k = choose|k: int| 0 <= k < self.variables@.len() && (#[trigger] self.variables@[k]).0 == c
                                    && self.variables@[k].1 == x && self.variables@[k].2;
                                assert(k < n);
                                assert(before.variables@[k] == self.variables@[k]);
                            }
                            if before.is_assigned(c, x) {
                                let k = choose|k: int| 0 <= k < before.variables@.len() && (#[trigger] before.variables@[k]).0 == c
                                    && before.variables@[k].1 == x && before.variables@[k].2;
                                assert(self.variables@[k] == before.variables@[k]);
                            }
                        }
                        assert forall|c: NodeId, x: NodeId| before.has_variable(c, x) implies #[trigger] self.has_variable(c, x) by {
                            let k = choose|k: int| 0 <= k < before.variables@.len() && (#[trigger] before.variables@[k]).0 == c
                                && before.variables@[k].1 == x;
                            assert(self.variables@[k] == before.variables@[k]);
                        }
                        assert forall|i: int, j: int| 0 <= i < j < self.variables@.len() implies !((#[trigger] self.variables@[i]).0
                            == (#[trigger] self.variables@[j]).0 && self.variables@[i].1 == self.variables@[j].1) by {
                            if j == n {
                                assert(self.variables@[i] == before.variables@[i]);
                            } else {
                                assert(self.variables@[i] == before.variables@[i]);
                                assert(self.variables@[j] == before.variables@[j]);
                            }
                        }
                    }
                }
            },
            ContractDefinitionNode::FunctionDefinition(_) | ContractDefinitionNode::ModifierDefinition(_) => {
                if v.storage_location == StorageLocation::Storage {
                    if let Some(value) = &v.value {
                        let ids = referenced_declarations(value);
                        let mut k: usize = 0;
                        assert(ids@.take(0) =~= Seq::<NodeId>::empty());
                        assert(old(self).aliases@ + Seq::<(NodeId, NodeId, NodeId)>::empty() =~= old(self).aliases@);
                        while k < ids.len()
                            invariant
                                k <= ids@.len(),
                                self.contracts == old(self).contracts,
                                self.variables == old(self).variables,
                                self.aliases@ == old(self).aliases@ + old(self).bound_aliases(cid, ids@.take(k as int), v.info.id),
                            decreases ids@.len() - k,
                        {
                            assert(ids@.take(k + 1).drop_last() =~= ids@.take(k as int));
                            assert(ids@.take(k + 1).last() == ids@[k as int]);
                            let ghost before = self.aliases@;
                            if self.find_variable_entry(cid, ids[k]).is_some() {
                                self.aliases.push((cid, ids[k], v.info.id));
                                assert(self.aliases@ =~= before + seq![(cid, ids@[k as int], v.info.id)]);
                            } else {
                                assert(before + Seq::<(NodeId, NodeId, NodeId)>::empty() =~= before);
                            }
                            assert(self.aliases@ =~= old(self).aliases@ + old(self).bound_aliases(cid, ids@.take(k + 1), v.info.id));
                            k = k + 1;
                        }
                        assert(ids@.take(ids@.len() as int) =~= ids@);
                    } else {
                        assert(old(self).aliases@ + Seq::<(NodeId, NodeId, NodeId)>::empty() =~= old(self).aliases@);
                    }
                } else {
                    assert(old(self).aliases@ + Seq::<(NodeId, NodeId, NodeId)>::empty() =~= old(self).aliases@);
                }
            },
            _ => {},
        }
    }

    fn mark(&mut self, c: NodeId, v: NodeId)
        requires
            old(self).wf(),
        ensures
            final(self).wf(),
            final(self).contracts == old(self).contracts,
            final(self).aliases == old(self).aliases,
            forall|a: NodeId, x: NodeId| #[trigger] final(self).has_variable(a, x) == old(self).has_variable(a, x),
            forall|a: NodeId, x: NodeId| #[trigger] final(self).is_assigned(a, x) == (old(self).is_assigned(a, x) || (a == c
                && x == v && old(self).has_variable(a, x))),
    {
        match self.find_variable_entry(c, v) {
            Some(k) => {
                let ghost before = *self;
                let e = self.variables[k];
                self.variables.set(k, (e.0, e.1, true, e.3));
                proof {
                    assert forall|a: NodeId, x: NodeId| #[trigger] self.has_variable(a, x) == before.has_variable(a, x) by {
                        if self.has_variable(a, x) {
                            let q = choose|q: int| 0 <= q < self.variables@.len() && (#[trigger] self.variables@[q]).0 == a && self.variables@[q].1 == x;
                            assert(before.variables@[q].0 == a && before.variables@[q].1 == x);
                        }
                        if before.has_variable(a, x) {
                            let q = choose|q: int| 0 <= q < before.variables@.len() && (#[trigger] before.variables@[q]).0 == a && before.variables@[q].1 == x;
                            assert(self.variables@[q].0 == a && self.variables@[q].1 == x);
                        }
                    }
                    assert forall|a: NodeId, x: NodeId| #[trigger] self.is_assigned(a, x) == (before.is_assigned(a, x) || (a == c
                        && x == v && before.has_variable(a, x))) by {
                        if a == c && x == v {
                            assert(self.variables@[k as int].2);
                        }
                        if self.is_assigned(a, x) && !(a == c && x == v) {
                            let q = choose|q: int| 0 <= q < self.variables@.len() && (#[trigger] self.variables@[q]).0 == a
                                && self.variables@[q].1 == x && self.variables@[q].2;
                            assert(q != k);
                            assert(before.variables@[q] == self.variables@[q]);
                        }
                        if before.is_assigned(a, x) {
                            let q = choose|q: int| 0 <= q < before.variables@.len() && (#[trigger] before.variables@[q]).0 == a
                                && before.variables@[q].1 == x && before.variables@[q].2;
                            if q == k {
                                assert(self.variables@[k as int].2);
                            } else {
                                assert(self.variables@[q] == before.variables@[q]);
                            }
                        }
                    }
                    assert forall|i: int, j: int| 0 <= i < j < self.variables@.len() implies !((#[trigger] self.variables@[i]).0
                        == (#[trigger] self.variables@[j]).0 && self.variables@[i].1 == self.variables@[j].1) by {
                        assert(before.variables@[i].0 == self.variables@[i].0 && before.variables@[i].1 == self.variables@[i].1);
                        assert(before.variables@[j].0 == self.variables@[j].0 && before.variables@[j].1 == self.variables@[j].1);
                    }
                }
            },
            None => {},
        }
    }

    fn mark_all(&mut self, c: NodeId, ids: &Vec<NodeId>)
        requires
            old(self).wf(),
        ensures
            final(self).wf(),
            final(self).contracts == old(self).contracts,
            final(self).aliases == old(self).aliases,
            forall|a: NodeId, x: NodeId| #[trigger] final(self).has_variable(a, x) == old(self).has_variable(a, x),
            forall|a: NodeId, x: NodeId| #[trigger] final(self).is_assigned(a, x) == (old(self).is_assigned(a, x) || (a == c
                && ids@.contains(x) && old(self).has_variable(a, x))),
    {
        let mut k: usize = 0;
        while k < ids.len()
            invariant
                k <= ids@.len(),
                self.wf(),
                self.contracts == old(self).contracts,
                self.aliases == old(self).aliases,
                forall|a: NodeId, x: NodeId| #[trigger] self.has_variable(a, x) == old(self).has_variable(a, x),
                forall|a: NodeId, x: NodeId| #[trigger] self.is_assigned(a, x) == (old(self).is_assigned(a, x) || (a == c
                    && ids@.take(k as int).contains(x) && old(self).has_variable(a, x))),
            decreases ids@.len() - k,
        {
            self.mark(c, ids[k]);
            assert forall|x: NodeId| #[trigger] ids@.take(k + 1).contains(x) <==> (ids@.take(k as int).contains(x) || x == ids@[k as int]) by {
                if ids@.take(k + 1).contains(x) {
                    let j = choose|j: int| 0 <= j < k + 1 && #[trigger] ids@.take(k + 1)[j] == x;
                    if j < k {
                        assert(ids@.take(k as int)[j] == x);
                    }
                }
                if ids@.take(k as int).contains(x) {
                    let j = choose|j: int| 0 <= j < k && #[trigger] ids@.take(k as int)[j] == x;
                    assert(ids@.take(k + 1)[j] == x);
                }
                if x == ids@[k as int] {
                    assert(ids@.take(k + 1)[k as int] == x);
                }
            }
            k = k + 1;
        }
        assert(ids@.take(ids@.len() as int) =~= ids@);
    }

    /// The first state variable of contract `c` that the local `local` is bound to.
    pub open spec fn alias_target(&self, c: NodeId, local: NodeId) -> Option<NodeId> {
        if exists|k: int| 0 <= k < self.aliases@.len() && (#[trigger] self.aliases@[k]).0 == c && self.aliases@[k].2 == local {
            let k = choose|k: int|
                0 <= k < self.aliases@.len() && (#[trigger] self.aliases@[k]).0 == c && self.aliases@[k].2 == local
                    && forall|j: int| 0 <= j < k ==> !(self.aliases@[j].0 == c && self.aliases@[j].2 == local);
            Some(self.aliases@[k].1)
        } else {
            None
        }
    }

    fn find_alias(&self, c: NodeId, local: NodeId) -> (r: Option<NodeId>)
        ensures
            r == self.alias_target(c, local),
    {
        let mut k: usize = 0;
        while k < self.aliases.len()
            invariant
                k <= self.aliases@.len(),
                forall|j: int| 0 <= j < k ==> !(self.aliases@[j].0 == c && self.aliases@[j].2 == local),
            decreases self.aliases@.len() - k,
        {
            if self.aliases[k].0 == c && self.aliases[k].2 == local {
                proof {
                    let q = choose|q: int|
                        0 <= q < self.aliases@.len() && (#[trigger] self.aliases@[q]).0 == c && self.aliases@[q].2 == local
                            && forall|j: int| 0 <= j < q ==> !(self.aliases@[j].0 == c && self.aliases@[j].2 == local);
                    if q < k {
                    } else if q > k {
                        assert(!(self.aliases@[k as int].0 == c && self.aliases@[k as int].2 == local));
                    }
                }
                return Some(self.aliases[k].1);
            }
            k = k + 1;
        }
        None
    }

    /// `after` is `before` having seen the assignment `a`: outside
    /// constructors, the state variables it writes are marked assigned.
    pub open spec fn marked_assignment(before: Self, after: Self, ctx: DefCtx, a: Assignment) -> bool {
        &&& after.contracts == before.contracts
        &&& after.aliases == before.aliases
        &&& forall|c: NodeId, x: NodeId| #[trigger] after.has_variable(c, x) == before.has_variable(c, x)
        &&& forall|c: NodeId, x: NodeId| #[trigger] after.is_assigned(c, x) == (before.is_assigned(c, x) || (
            !in_constructor(*ctx.node) && before.contracts@.contains(ctx.contract.info.id) && c == ctx.contract.info.id
                && before.has_variable(c, x) && (assigned_vars(ctx.units@, *ctx.contract, *a.left_hand_side).contains(x)
                || (*a.left_hand_side matches Expression::MemberAccess(m) && refs(*m.expression).len() > 0
                && before.alias_target(c, refs(*m.expression)[0]) == Some(x)))))
    }

    /// `after` is `before` having visited the unary operation `u`.
    pub open spec fn marked_unary(before: Self, after: Self, ctx: DefCtx, u: UnaryOperation) -> bool {
        &&& after.contracts == before.contracts
        &&& after.aliases == before.aliases
        &&& forall|c: NodeId, x: NodeId| #[trigger] after.has_variable(c, x) == before.has_variable(c, x)
        &&& forall|c: NodeId, x: NodeId| #[trigger] after.is_assigned(c, x) == (before.is_assigned(c, x) || (!in_constructor(
            *ctx.node,
        ) && c == ctx.contract.info.id && before.has_variable(c, x) && assigned_vars(ctx.units@, *ctx.contract, *u.sub_expression).contains(
            x,
        )))
    }

    /// A write made while walking a constructor marks no state variable as
    /// assigned, whether by an assignment or an increment or decrement; so a
    /// state variable written only in its constructor stays a candidate for
    /// `constant` or `immutable`.
    pub proof fn lemma_constructor_writes_mark_nothing(
        v: Self,
        w: Self,
        w2: Self,
        ctx: DefCtx,
        a: Assignment,
        u: UnaryOperation,
        f: FunctionDefinition,
    )
        requires
            *ctx.node == ContractDefinitionNode::FunctionDefinition(f),
            f.kind == FunctionKind::Constructor,
        ensures
            Self::marked_assignment(v, w, ctx, a) ==> forall|c: NodeId, x: NodeId| #[trigger] w.is_assigned(c, x) == v.is_assigned(c, x),
            Self::marked_unary(v, w2, ctx, u) ==> forall|c: NodeId, x: NodeId| #[trigger] w2.is_assigned(c, x) == v.is_assigned(c, x),
    {
    }

    /// Outside a constructor, in a function or modifier of a contract walked,
    /// an assignment or an increment or decrement of a recorded state variable
    /// of that contract marks it as assigned.
    pub proof fn lemma_other_writes_mark(v: Self, w: Self, w2: Self, ctx: DefCtx, a: Assignment, u: UnaryOperation, x: NodeId)
        requires
            (*ctx.node matches ContractDefinitionNode::FunctionDefinition(f) && f.kind != FunctionKind::Constructor)
                || *ctx.node is ModifierDefinition,
            v.contracts@.contains(ctx.contract.info.id),
            v.has_variable(ctx.contract.info.id, x),
        ensures
            Self::marked_assignment(v, w, ctx, a) && assigned_vars(ctx.units@, *ctx.contract, *a.left_hand_side).contains(x)
                ==> w.is_assigned(ctx.contract.info.id, x),
            Self::marked_unary(v, w2, ctx, u) && assigned_vars(ctx.units@, *ctx.contract, *u.sub_expression).contains(x)
                ==> w2.is_assigned(ctx.contract.info.id, x),
    {
    }

    /// Outside constructors, marks the state variables an assignment writes:
    /// those its target names, and the one a member access target's base is
    /// bound to.
    pub fn visit_assignment(&mut self, ctx: &DefCtx, a: &Assignment)
        requires
            old(self).wf(),
        ensures
            final(self).wf(),
            Self::marked_assignment(*old(self), *final(self), *ctx, *a),
    {
        let cid = ctx.contract.info.id;
        let ctor = match ctx.node {
            ContractDefinitionNode::FunctionDefinition(f) => f.kind == FunctionKind::Constructor,
            _ => false,
        };
        if ctor || !self.has_contract(cid) {
            return;
        }
        let mut ids = get_assigned_state_variables(ctx.units, ctx.contract, &a.left_hand_side);
        if let Expression::MemberAccess(m) = &*a.left_hand_side {
            let rds = referenced_declarations(&m.expression);
            if rds.len() > 0 {
                if let Some(x) = self.find_alias(cid, rds[0]) {
                    ids.push(x);
                }
            }
        }
        let ghost all = ids@;
        self.mark_all(cid, &ids);
        proof {
            assert forall|c: NodeId, x: NodeId| #[trigger] self.is_assigned(c, x) == (old(self).is_assigned(c, x) || (
                !in_constructor(*ctx.node) && old(self).contracts@.contains(ctx.contract.info.id) && c == ctx.contract.info.id
                    && old(self).has_variable(c, x) && (assigned_vars(ctx.units@, *ctx.contract, *a.left_hand_side).contains(x)
                    || (*a.left_hand_side matches Expression::MemberAccess(m) && refs(*m.expression).len() > 0
                    && old(self).alias_target(c, refs(*m.expression)[0]) == Some(x))))) by {
                let base = assigned_vars(ctx.units@, *ctx.contract, *a.left_hand_side);
                if all.contains(x) && !base.contains(x) {
                    let j = choose|j: int| 0 <= j < all.len() && all[j] == x;
                    assert(j >= base.len());
                }
                if base.contains(x) {
                    let j = choose|j: int| 0 <= j < base.len() && base[j] == x;
                    assert(all[j] == x);
                }
                if *a.left_hand_side matches Expression::MemberAccess(m) && refs(*m.expression).len() > 0
                    && old(self).alias_target(c, refs(*m.expression)[0]) == Some(x) && c == cid {
                    assert(all[all.len() - 1] == x);
                }
            }
        }
    }

    fn mark_expression(&mut self, ctx: &DefCtx, e: &Expression)
        requires
            old(self).wf(),
        ensures
            final(self).wf(),
            final(self).contracts == old(self).contracts,
            final(self).aliases == old(self).aliases,
            forall|c: NodeId, x: NodeId| #[trigger] final(self).has_variable(c, x) == old(self).has_variable(c, x),
            forall|c: NodeId, x: NodeId| #[trigger] final(self).is_assigned(c, x) == (old(self).is_assigned(c, x) || (
                !in_constructor(*ctx.node) && c == ctx.contract.info.id && old(self).has_variable(c, x)
                    && assigned_vars(ctx.units@, *ctx.contract, *e).contains(x))),
    {
        let ctor = match ctx.node {
            ContractDefinitionNode::FunctionDefinition(f) => f.kind == FunctionKind::Constructor,
            _ => false,
        };
        if ctor {
            return;
        }
        let ids = get_assigned_state_variables(ctx.units, ctx.contract, e);
        self.mark_all(ctx.contract.info.id, &ids);
    }

    /// Outside constructors, marks the state variables a unary operation's
    /// operand names.
    pub fn visit_unary_operation(&mut self, ctx: &DefCtx, u: &UnaryOperation)
        requires
            old(self).wf(),
        ensures
            Self::marked_unary(*old(self), *final(self), *ctx, *u),
            final(self).wf(),
            final(self).contracts == old(self).contracts,
            final(self).aliases == old(self).aliases,
            forall|c: NodeId, x: NodeId| #[trigger] final(self).has_variable(c, x) == old(self).has_variable(c, x),
            forall|c: NodeId, x: NodeId| #[trigger] final(self).is_assigned(c, x) == (old(self).is_assigned(c, x) || (
                !in_constructor(*ctx.node) && c == ctx.contract.info.id && old(self).has_variable(c, x)
                    && assigned_vars(ctx.units@, *ctx.contract, *u.sub_expression).contains(x))),
    {
        self.mark_expression(ctx, &u.sub_expression)
    }

    /// Outside constructors, marks the state variables a `push` or `pop`
    /// call on a built-in array is applied to.
    pub fn visit_function_call(&mut self, ctx: &DefCtx, call: &FunctionCall)
        requires
            old(self).wf(),
        ensures
            final(self).wf(),
            final(self).contracts == old(self).contracts,
            final(self).aliases == old(self).aliases,
            forall|c: NodeId, x: NodeId| #[trigger] final(self).has_variable(c, x) == old(self).has_variable(c, x),
            forall|c: NodeId, x: NodeId| #[trigger] final(self).is_assigned(c, x) == (old(self).is_assigned(c, x) || (
                !in_constructor(*ctx.node) && c == ctx.contract.info.id && old(self).has_variable(c, x) && (
                *call.expression matches Expression::MemberAccess(m) && m.referenced_declaration is None && (m.member_name@
                    == "push"@ || m.member_name@ == "pop"@) && assigned_vars(ctx.units@, *ctx.contract, *m.expression).contains(x)))),
    {
        if let Expression::MemberAccess(m) = &*call.expression {
            if m.referenced_declaration.is_none() && (str_eq(m.member_name.as_str(), "push") || str_eq(m.member_name.as_str(), "pop")) {
                self.mark_expression(ctx, &m.expression);
            }
        }
    }

    /// Files each state variable of the contract being left that is never
    /// assigned outside a constructor and is not exempt.
    pub fn leave_contract_definition(&mut self, ctx: &UnitCtx, c: &ContractDefinition, out: &mut Output) -> (r: Result<(), AnalysisError>)
        requires
            old(out).wf(),
        ensures
            final(out).wf(),
            old(out).extends(*final(out)),
            *final(self) == *old(self),
            final(out).printed == old(out).printed,
            match mutability_entries(*ctx.unit, *c, old(self).variables@) {
                Ok(es) => r is Ok && final(out).report.entries_of(unit_path(*ctx.unit)) == old(out).report.entries_of(
                    unit_path(*ctx.unit),
                ) + es,
                Err(_) => r is Err,
            },
            forall|p: Seq<char>| p != unit_path(*ctx.unit) ==> final(out).report.entries_of(p) == old(out).report.entries_of(p),
    {
        proof { Output::lemma_extends_refl(*out); }
        let ghost path = unit_path(*ctx.unit);
        let ghost start = old(out).report.entries_of(path);
        let cid = c.info.id;
        let mut k: usize = 0;
        assert(self.variables@.take(0) =~= Seq::<(NodeId, NodeId, bool, bool)>::empty());
        assert(start + Seq::<EntryView>::empty() =~= start);
        while k < self.variables.len()
            invariant
                k <= self.variables@.len(),
                cid == c.info.id,
                out.wf(),
                old(out).extends(*out),
                out.printed == old(out).printed,
                *self == *old(self),
                path == unit_path(*ctx.unit),
                start == old(out).report.entries_of(path),
                mutability_entries(*ctx.unit, *c, self.variables@.take(k as int)) matches Ok(es)
                    && out.report.entries_of(path) == start + es,
                forall|p: Seq<char>| p != path ==> out.report.entries_of(p) == old(out).report.entries_of(p),
            decreases self.variables@.len() - k,
        {
            let ghost pre = mutability_entries(*ctx.unit, *c, self.variables@.take(k as int))->Ok_0;
            assert(self.variables@.take(k + 1).drop_last() =~= self.variables@.take(k as int));
            assert(self.variables@.take(k + 1).last() == self.variables@[k as int]);
            let e = self.variables[k];
            if e.0 == cid && !e.2 {
                if let Some(v) = find_variable(c, e.1) {
                    let exempt = match v.mutability {
                        Some(Mutability::Constant) | Some(Mutability::Immutable) => true,
                        _ => false,
                    } || v.constant || match &v.ty {
                        Some(TypeName::ElementaryTypeName { name }) => str_eq(name.as_str(), "bytes") || str_eq(name.as_str(), "string"),
                        _ => false,
                    };
                    assert(exempt == crate::analysis::state_variable_mutability::exempt(*v));
                    if !exempt {
                        if let Some(t) = &v.ty {
                            let msg = String::from_str("The ").concat(visibility_str(v.visibility)).concat(" `").concat(
                                c.name.as_str(),
                            ).concat(".").concat(v.name.as_str()).concat("` ").concat(type_name_string(t).as_str()).concat(
                                " state variable can be declared `",
                            ).concat(if e.3 { "constant" } else { "immutable" }).concat("`");
                            assert(msg@ =~= mutability_text(*c, *v, e.3));
                            let ghost before = *out;
                            let res = out.add_at(ctx.unit, v.info.src.as_str(), msg);
                            if res.is_err() {
                                proof {
                                    lemma_mutability_entries_err(*ctx.unit, *c, self.variables@, k as int + 1);
                                }
                                return res;
                            }
                        }
                    }
                }
            }
            k = k + 1;
        }
        assert(self.variables@.take(self.variables@.len() as int) =~= self.variables@);
        Ok(())
    }
}

/// Once the findings of a prefix of the records fail, those of every longer
/// prefix fail.
proof fn lemma_mutability_entries_err(
    unit: crate::ast::SourceUnit,
    c: ContractDefinition,
    vars: Seq<(NodeId, NodeId, bool, bool)>,
    k: int,
)
    requires
        0 <= k <= vars.len(),
        mutability_entries(unit, c, vars.take(k)) is Err,
    ensures
        mutability_entries(unit, c, vars) is Err,
    decreases vars.len() - k,
{
    if k < vars.len() {
        assert(vars.take(k + 1).drop_last() =~= vars.take(k));
        lemma_mutability_entries_err(unit, c, vars, k + 1);
    } else {
        assert(vars.take(k) =~= vars);
    }
}

} // verus!
