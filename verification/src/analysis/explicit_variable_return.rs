//! Return statements that return local variables explicitly.
use vstd::prelude::*;
use crate::analysis::{reported_at_if, DefCtx, Output};
use crate::ast::{Expression, NodeId, Return, VariableDeclarationStatement};
use crate::render::{definition_node_location, location_text, node_text, spec_node_text, AnalysisError};

verus! {

pub struct ExplicitVariableReturnVisitor {
    /// The local variables declared so far.
    pub local_variable_ids: Vec<NodeId>,
}

/// Every component of a tuple that is there is an identifier of a local variable.
pub open spec fn all_local(locals: Seq<NodeId>, cs: Seq<Option<Expression>>) -> bool {
    forall|k: int|
        0 <= k < cs.len() && #[trigger] cs[k] is Some ==> (cs[k]->Some_0 matches Expression::Identifier(i)
            && locals.contains(i.referenced_declaration))
}

/// How a return statement that returns local variables is described: a
/// single local variable, or a tuple of them.
pub open spec fn local_return(locals: Seq<NodeId>, e: Option<Expression>) -> Option<Seq<char>> {
    match e {
        Some(Expression::Identifier(i)) => if locals.contains(i.referenced_declaration) {
            Some("a local variable"@)
        } else {
            None
        },
        Some(Expression::TupleExpression(t)) => if all_local(locals, t.components@) {
            Some("local variables"@)
        } else {
            None
        },
        _ => None,
    }
}

/// Declaration `k` of `d` is there and declares `id`.
pub open spec fn declares_at(d: VariableDeclarationStatement, k: int, id: NodeId) -> bool {
    match d.declarations@[k] {
        Some(v) => v.info.id == id,
        None => false,
    }
}

impl ExplicitVariableReturnVisitor {
    pub fn new() -> (r: Self)
        ensures
            r.local_variable_ids@.len() == 0,
    {
        ExplicitVariableReturnVisitor { local_variable_ids: Vec::new() }
    }

    fn is_local(&self, id: NodeId) -> (r: bool)
        ensures
            r == self.local_variable_ids@.contains(id),
    {
        let mut k: usize = 0;
        while k < self.local_variable_ids.len()
            invariant
                k <= self.local_variable_ids@.len(),
                forall|j: int| 0 <= j < k ==> self.local_variable_ids@[j] != id,
            decreases self.local_variable_ids@.len() - k,
        {
            if self.local_variable_ids[k] == id {
                assert(self.local_variable_ids@[k as int] == id);
                return true;
            }
            k = k + 1;
        }
        false
    }

    /// `after` knows the local variables `before` knew and those `d` declares.
    pub open spec fn declared(before: Self, after: Self, d: VariableDeclarationStatement) -> bool {
        forall|id: NodeId| #[trigger] after.local_variable_ids@.contains(id) <==> (before.local_variable_ids@.contains(id)
            || exists|k: int| 0 <= k < d.declarations@.len() && #[trigger] declares_at(d, k, id))
    }

    /// Records the variables a declaration statement declares.
    pub fn visit_variable_declaration_statement(&mut self, d: &VariableDeclarationStatement)
        ensures
            Self::declared(*old(self), *final(self), *d),
    {
        let n = d.declarations.len();
        let mut k: usize = 0;
        while k < n
            invariant
                n == d.declarations@.len(),
                k <= n,
                forall|id: NodeId| #[trigger] self.local_variable_ids@.contains(id) <==> (old(
                    self,
                ).local_variable_ids@.contains(id) || exists|j: int|
                    0 <= j < k && #[trigger] declares_at(*d, j, id)),
            decreases n - k,
        {
            let ghost prev = self.local_variable_ids@;
            if let Some(v) = &d.declarations[k] {
                if !self.is_local(v.info.id) {
                    self.local_variable_ids.push(v.info.id);
                }
                assert forall|id: NodeId| #[trigger] self.local_variable_ids@.contains(id) <==> (prev.contains(id) || id == v.info.id) by {
                    if self.local_variable_ids@.contains(id) && !prev.contains(id) {
                        let j = choose|j: int| 0 <= j < self.local_variable_ids@.len() && self.local_variable_ids@[j] == id;
                        if j < prev.len() {
                            assert(prev[j] == id);
                        }
                    }
                    if prev.contains(id) {
                        let j = choose|j: int| 0 <= j < prev.len() && prev[j] == id;
                        assert(self.local_variable_ids@[j] == id);
                    }
                    if id == v.info.id && !prev.contains(id) {
                        assert(self.local_variable_ids@[prev.len() as int] == id);
                    }
                }
                assert forall|id: NodeId| #![trigger self.local_variable_ids@.contains(id)] (exists|j: int| 0 <= j < k + 1 && #[trigger] declares_at(*d, j, id)) <==> ((exists|j: int|
                    0 <= j < k && #[trigger] declares_at(*d, j, id)) || id == v.info.id) by {
                    if id == v.info.id {
                        assert(declares_at(*d, k as int, id));
                    }
                    if exists|j: int| 0 <= j < k + 1 && #[trigger] declares_at(*d, j, id) {
                        let j = choose|j: int| 0 <= j < k + 1 && #[trigger] declares_at(*d, j, id);
                        if j == k {
                            assert(id == v.info.id);
                        }
                    }
                }
            } else {
                assert forall|id: NodeId| #![trigger self.local_variable_ids@.contains(id)] (exists|j: int| 0 <= j < k + 1 && #[trigger] declares_at(*d, j, id))
                    ==> (exists|j: int| 0 <= j < k && #[trigger] declares_at(*d, j, id)) by {
                    if exists|j: int| 0 <= j < k + 1 && #[trigger] declares_at(*d, j, id) {
                        let j = choose|j: int| 0 <= j < k + 1 && #[trigger] declares_at(*d, j, id);
                        assert(j != k);
                    }
                }
            }
            k = k + 1;
        }
    }

    fn describe(&self, e: &Option<Expression>) -> (r: Option<&'static str>)
        ensures
            match r {
                Some(s) => local_return(self.local_variable_ids@, *e) == Some(s@),
                None => local_return(self.local_variable_ids@, *e) is None,
            },
    {
        match e {
            Some(Expression::Identifier(i)) => {
                if self.is_local(i.referenced_declaration) {
                    Some("a local variable")
                } else {
                    None
                }
            },
            Some(Expression::TupleExpression(t)) => {
                let n = t.components.len();
                let mut k: usize = 0;
                while k < n
                    invariant
                        n == t.components@.len(),
                        k <= n,
                        *e == Some(Expression::TupleExpression(*t)),
                        forall|j: int|
                            0 <= j < k && #[trigger] t.components@[j] is Some ==> (t.components@[j]->Some_0 matches Expression::Identifier(i)
                                && self.local_variable_ids@.contains(i.referenced_declaration)),
                    decreases n - k,
                {
                    match &t.components[k] {
                        Some(Expression::Identifier(i)) => {
                            if !self.is_local(i.referenced_declaration) {
                                assert(!all_local(self.local_variable_ids@, t.components@)) by {
                                    assert(t.components@[k as int] is Some);
                                }
                                return None;
                            }
                        },
                        Some(_) => {
                            assert(!all_local(self.local_variable_ids@, t.components@)) by {
                                assert(t.components@[k as int] is Some);
                            }
                            return None;
                        },
                        None => {},
                    }
                    k = k + 1;
                }
                Some("local variables")
            },
            _ => None,
        }
    }

    /// Reports a return of local variables.
    pub fn visit_return(&mut self, ctx: &DefCtx, ret: &Return, out: &mut Output) -> (r: Result<(), AnalysisError>)
        requires
            old(out).wf(),
        ensures
            *final(self) == *old(self),
            final(out).wf(),
            old(out).extends(*final(out)),
            reported_at_if(
                *old(out),
                *final(out),
                *ctx.unit,
                ret.info.src@,
                local_return(old(self).local_variable_ids@, ret.expression) is Some,
                location_text(*ctx.contract, *ctx.node) + " returns "@ + local_return(
                    old(self).local_variable_ids@,
                    ret.expression,
                )->Some_0 + " explicitly: `"@ + spec_node_text(*ctx.unit, ret.info.src@) + "`"@,
                r is Ok,
            ),
    {
        proof { Output::lemma_extends_refl(*out); }
        match self.describe(&ret.expression) {
            Some(d) => {
                let msg = definition_node_location(ctx.contract, ctx.node).concat(" returns ").concat(d).concat(
                    " explicitly: `",
                ).concat(node_text(ctx.unit, ret.info.src.as_str()).as_str()).concat("`");
                out.add_at(ctx.unit, ret.info.src.as_str(), msg)
            },
            None => Ok(()),
        }
    }
}

} // verus!
