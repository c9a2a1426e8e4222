//! Functions with return parameters that neither return explicitly nor
//! assign any of their return parameters.
use vstd::prelude::*;
use crate::analysis::{DefCtx, Output};
use crate::ast::{Assignment, Block, ContractDefinitionNode, FunctionDefinition, NodeId};
use crate::query::{
    block_contains_returns, get_assigned_return_variables, assigned_returns, lemma_returns_anywhere, lemma_returns_only_from_a_statement,
    statement_returns, statements_return,
};
use crate::render::{function_summary, function_summary_text};
use crate::text::str_eq;

verus! {

pub struct MissingReturnVisitor {
    /// The functions being checked: those with return parameters and a body.
    pub functions: Vec<NodeId>,
    /// The return parameters assigned so far: (function, parameter).
    pub assigned: Vec<(NodeId, NodeId)>,
}

/// The first return parameter of `f` named `name`, where there is one.
pub open spec fn first_return_named(f: FunctionDefinition, name: Seq<char>, k: int) -> bool {
    &&& 0 <= k < f.return_parameters@.len()
    &&& f.return_parameters@[k].name@ == name
    &&& forall|j: int| 0 <= j < k ==> (#[trigger] f.return_parameters@[j]).name@ != name
}

/// The return parameters that a Yul assignment to `names` assigns: for each
/// name, the first return parameter with that name.
pub open spec fn yul_assigned(f: FunctionDefinition, names: Seq<Seq<char>>) -> Set<NodeId> {
    Set::new(
        |id: NodeId|
            exists|i: int, k: int|
                0 <= i < names.len() && #[trigger] first_return_named(f, names[i], k) && f.return_parameters@[k].info.id
                    == id,
    )
}

/// The function is missing a return: its body has no return statement and
/// none of its return parameters was assigned.
pub open spec fn misses_return(f: FunctionDefinition, assigned: Set<(NodeId, NodeId)>) -> bool {
    &&& f.body matches Some(b) && !statements_return(b.statements@)
    &&& forall|k: int|
        0 <= k < f.return_parameters@.len() ==> !assigned.contains(
            (f.info.id, #[trigger] f.return_parameters@[k].info.id),
        )
}

/// A function whose body returns anywhere, however deeply nested the return
/// statement, is not missing a return; one with a body in which no statement
/// returns and no return parameter is assigned is.
pub proof fn lemma_missing_return_exactly(f: FunctionDefinition, assigned: Set<(NodeId, NodeId)>, b: Block, k: int)
    requires
        f.body == Some(b),
    ensures
        0 <= k < b.statements@.len() && statement_returns(b.statements@[k]) ==> !misses_return(f, assigned),
        (forall|j: int| 0 <= j < b.statements@.len() ==> !#[trigger] statement_returns(b.statements@[j])) && (forall|j: int|
            0 <= j < f.return_parameters@.len() ==> !assigned.contains((f.info.id, #[trigger] f.return_parameters@[j].info.id)))
            ==> misses_return(f, assigned),
{
    if 0 <= k < b.statements@.len() && statement_returns(b.statements@[k]) {
        lemma_returns_anywhere(b.statements@, k);
    }
    if statements_return(b.statements@) {
        lemma_returns_only_from_a_statement(b.statements@);
    }
}

/// The line printed for a function that misses a return.
pub open spec fn missing_return_line(c: crate::ast::ContractDefinition, f: FunctionDefinition) -> Seq<char> {
    "\t"@ + function_summary_text(c, f) + " is missing an explicit return statement"@
}

impl MissingReturnVisitor {
    pub fn new() -> (r: Self)
        ensures
            r.functions@.len() == 0,
            r.assigned@.len() == 0,
    {
        MissingReturnVisitor { functions: Vec::new(), assigned: Vec::new() }
    }

    pub open spec fn assigned_set(&self) -> Set<(NodeId, NodeId)> {
        self.assigned@.to_set()
    }

    fn is_checked(&self, id: NodeId) -> (r: bool)
        ensures
            r == self.functions@.contains(id),
    {
        let mut k: usize = 0;
        while k < self.functions.len()
            invariant
                k <= self.functions@.len(),
                forall|j: int| 0 <= j < k ==> self.functions@[j] != id,
            decreases self.functions@.len() - k,
        {
            if self.functions[k] == id {
                assert(self.functions@[k as int] == id);
                return true;
            }
            k = k + 1;
        }
        false
    }

    fn is_assigned(&self, f: NodeId, v: NodeId) -> (r: bool)
        ensures
            r == self.assigned_set().contains((f, v)),
    {
        let mut k: usize = 0;
        while k < self.assigned.len()
            invariant
                k <= self.assigned@.len(),
                forall|j: int| 0 <= j < k ==> self.assigned@[j] != (f, v),
            decreases self.assigned@.len() - k,
        {
            if self.assigned[k].0 == f && self.assigned[k].1 == v {
                assert(self.assigned@.contains((f, v)));
                return true;
            }
            k = k + 1;
        }
        false
    }

    fn record(&mut self, f: NodeId, v: NodeId)
        ensures
            final(self).assigned_set() == old(self).assigned_set().insert((f, v)),
            final(self).functions == old(self).functions,
    {
        if !self.is_assigned(f, v) {
            self.assigned.push((f, v));
            assert forall|q: (NodeId, NodeId)| self.assigned_set().contains(q) <==> old(self).assigned_set().insert(
                (f, v),
            ).contains(q) by {
                if self.assigned@.contains(q) {
                    let j = choose|j: int| 0 <= j < self.assigned@.len() && self.assigned@[j] == q;
                    if j < old(self).assigned@.len() {
                        assert(old(self).assigned@[j] == q);
                    }
                }
                if old(self).assigned@.contains(q) {
                    let j = choose|j: int| 0 <= j < old(self).assigned@.len() && old(self).assigned@[j] == q;
                    assert(self.assigned@[j] == q);
                }
                if q == (f, v) {
                    assert(self.assigned@[old(self).assigned@.len() as int] == q);
                }
            }
        }
        assert(self.assigned_set() =~= old(self).assigned_set().insert((f, v)));
    }

    /// Starts checking a function that has return parameters and a body.
    pub fn visit_function_definition(&mut self, f: &FunctionDefinition)
        ensures
            final(self).assigned == old(self).assigned,
            final(self).functions@.to_set() == if f.return_parameters@.len() > 0 && f.body is Some {
                old(self).functions@.to_set().insert(f.info.id)
            } else {
                old(self).functions@.to_set()
            },
    {
        if f.return_parameters.len() == 0 || f.body.is_none() {
            return;
        }
        if !self.is_checked(f.info.id) {
            self.functions.push(f.info.id);
            assert forall|q: NodeId| self.functions@.contains(q) <==> old(self).functions@.to_set().insert(
                f.info.id,
            ).contains(q) by {
                if self.functions@.contains(q) {
                    let j = choose|j: int| 0 <= j < self.functions@.len() && self.functions@[j] == q;
                    if j < old(self).functions@.len() {
                        assert(old(self).functions@[j] == q);
                    }
                }
                if old(self).functions@.contains(q) {
                    let j = choose|j: int| 0 <= j < old(self).functions@.len() && old(self).functions@[j] == q;
                    assert(self.functions@[j] == q);
                }
                if q == f.info.id {
                    assert(self.functions@[old(self).functions@.len() as int] == q);
                }
            }
        }
        assert(self.functions@.to_set() =~= old(self).functions@.to_set().insert(f.info.id));
    }

    /// Prints the function being left where it is checked and misses a return.
    pub fn leave_function_definition(&mut self, ctx: &DefCtx, f: &FunctionDefinition, out: &mut Output)
        requires
            old(out).wf(),
        ensures
            final(out).wf(),
            old(out).extends(*final(out)),
            *final(self) == *old(self),
            final(out).report == old(out).report,
            final(out).printed@.map_values(|s: String| s@) == if old(self).functions@.contains(f.info.id) && misses_return(
                *f,
                old(self).assigned_set(),
            ) {
                old(out).printed@.map_values(|s: String| s@).push(missing_return_line(*ctx.contract, *f))
            } else {
                old(out).printed@.map_values(|s: String| s@)
            },
    {
        proof { Output::lemma_extends_refl(*out); }
        if !self.is_checked(f.info.id) {
            return;
        }
        assert(old(self).functions@.contains(f.info.id));
        let b = match &f.body {
            Some(b) => b,
            None => return,
        };
        if block_contains_returns(b) {
            return;
        }
        let n = f.return_parameters.len();
        let mut k: usize = 0;
        while k < n
            invariant
                n == f.return_parameters@.len(),
                k <= n,
                out.wf(),
                *out == *old(out),
                old(out).extends(*out),
                forall|j: int| 0 <= j < k ==> !self.assigned_set().contains(
                    (f.info.id, #[trigger] f.return_parameters@[j].info.id),
                ),
            decreases n - k,
        {
            if self.is_assigned(f.info.id, f.return_parameters[k].info.id) {
                return;
            }
            k = k + 1;
        }
        let line = String::from_str("\t").concat(function_summary(ctx.contract, f).as_str()).concat(
            " is missing an explicit return statement",
        );
        out.print(line);
        assert(out.printed@.map_values(|s: String| s@) =~= old(out).printed@.map_values(|s: String| s@).push(
            missing_return_line(*ctx.contract, *f),
        ));
    }

    /// Records the return parameters an assignment in a checked function writes.
    /// `after` is `before` having seen the assignment `a`: in a checked
    /// function, the return parameters it writes are recorded.
    pub open spec fn recorded_assignment(before: Self, after: Self, ctx: DefCtx, a: Assignment) -> bool {
        &&& after.functions == before.functions
        &&& after.assigned_set() == match *ctx.node {
            ContractDefinitionNode::FunctionDefinition(f) => if before.functions@.contains(f.info.id) {
                before.assigned_set().union(
                    Set::new(|q: (NodeId, NodeId)| q.0 == f.info.id && assigned_returns(f, *a.left_hand_side).contains(q.1)),
                )
            } else {
                before.assigned_set()
            },
            _ => before.assigned_set(),
        }
    }

    pub fn visit_assignment(&mut self, ctx: &DefCtx, a: &Assignment)
        ensures
            Self::recorded_assignment(*old(self), *final(self), *ctx, *a),
    {
        let f = match ctx.node {
            ContractDefinitionNode::FunctionDefinition(f) => f,
            _ => {
                assert(self.assigned_set() == old(self).assigned_set());
                return;
            },
        };
        if !self.is_checked(f.info.id) {
            return;
        }
        let ids = get_assigned_return_variables(f, &a.left_hand_side);
        let mut k: usize = 0;
        while k < ids.len()
            invariant
                k <= ids@.len(),
                self.functions == old(self).functions,
                self.assigned_set() == old(self).assigned_set().union(
                    Set::new(|q: (NodeId, NodeId)| q.0 == f.info.id && ids@.take(k as int).contains(q.1)),
                ),
            decreases ids@.len() - k,
        {
            let ghost before = self.assigned_set();
            self.record(f.info.id, ids[k]);
            assert(self.assigned_set() == before.insert((f.info.id, ids@[k as int])));
            let ghost s1 = Set::new(|q: (NodeId, NodeId)| q.0 == f.info.id && ids@.take(k as int).contains(q.1));
            let ghost s2 = Set::new(|q: (NodeId, NodeId)| q.0 == f.info.id && ids@.take(k + 1).contains(q.1));
            assert(before == old(self).assigned_set().union(s1));
            assert forall|q: (NodeId, NodeId)| self.assigned_set().contains(q) <==> old(self).assigned_set().union(s2).contains(q) by {
                if ids@.take(k + 1).contains(q.1) {
                    let j = choose|j: int| 0 <= j < k + 1 && #[trigger] ids@.take(k + 1)[j] == q.1;
                    if j < k {
                        assert(ids@.take(k as int)[j] == q.1);
                    } else {
                        assert(ids@[k as int] == q.1);
                    }
                }
                if ids@.take(k as int).contains(q.1) {
                    let j = choose|j: int| 0 <= j < k && #[trigger] ids@.take(k as int)[j] == q.1;
                    assert(ids@.take(k + 1)[j] == q.1);
                }
                if q == (f.info.id, ids@[k as int]) {
                    assert(ids@.take(k + 1)[k as int] == q.1);
                }
            }
            assert(self.assigned_set() =~= old(self).assigned_set().union(s2));
            k = k + 1;
        }
        assert(ids@.take(ids@.len() as int) =~= ids@);
    }

    /// `after` is `before` with the return parameters that a Yul assignment
    /// to `names` in a checked function writes recorded.
    pub open spec fn yul_recorded(before: Self, after: Self, ctx: DefCtx, names: Seq<String>) -> bool {
        &&& after.functions == before.functions
        &&& after.assigned_set() == match *ctx.node {
            ContractDefinitionNode::FunctionDefinition(f) => if before.functions@.contains(f.info.id) {
                before.assigned_set().union(
                    Set::new(|q: (NodeId, NodeId)| q.0 == f.info.id && yul_assigned(f, names.map_values(|s: String| s@)).contains(q.1)),
                )
            } else {
                before.assigned_set()
            },
            _ => before.assigned_set(),
        }
    }

    /// Records the return parameters a Yul assignment in a checked function
    /// writes, by name.
    pub fn visit_yul_assignment(&mut self, ctx: &DefCtx, names: &Vec<String>)
        ensures
            Self::yul_recorded(*old(self), *final(self), *ctx, names@),
    {
        let f = match ctx.node {
            ContractDefinitionNode::FunctionDefinition(f) => f,
            _ => {
                assert(self.assigned_set() == old(self).assigned_set());
                return;
            },
        };
        if !self.is_checked(f.info.id) {
            return;
        }
        let ghost all = names@.map_values(|s: String| s@);
        let mut i: usize = 0;
        while i < names.len()
            invariant
                i <= names@.len(),
                all == names@.map_values(|s: String| s@),
                self.functions == old(self).functions,
                self.assigned_set() == old(self).assigned_set().union(
                    Set::new(|q: (NodeId, NodeId)| q.0 == f.info.id && yul_assigned(*f, all.take(i as int)).contains(q.1)),
                ),
            decreases names@.len() - i,
        {
            let n = f.return_parameters.len();
            let mut k: usize = 0;
            while k < n && !str_eq(f.return_parameters[k].name.as_str(), names[i].as_str())
                invariant
                    n == f.return_parameters@.len(),
                    k <= n,
                    i < names@.len(),
                    forall|j: int| 0 <= j < k ==> (#[trigger] f.return_parameters@[j]).name@ != names@[i as int]@,
                decreases n - k,
            {
                k = k + 1;
            }
            let ghost before = self.assigned_set();
            assert(all[i as int] == names@[i as int]@);
            if k < n {
                self.record(f.info.id, f.return_parameters[k].info.id);
                assert(first_return_named(*f, all[i as int], k as int));
            }
            proof {
                let next = if k < n { before.insert((f.info.id, f.return_parameters@[k as int].info.id)) } else { before };
                assert(self.assigned_set() == next);
                assert forall|id: NodeId| #[trigger] yul_assigned(*f, all.take(i + 1)).contains(id) <==> (yul_assigned(
                    *f,
                    all.take(i as int),
                ).contains(id) || (k < n && id == f.return_parameters@[k as int].info.id)) by {
                    if yul_assigned(*f, all.take(i + 1)).contains(id) {
                        let (a, b) = choose|a: int, b: int|
                            0 <= a < all.take(i + 1).len() && #[trigger] first_return_named(*f, all.take(i + 1)[a], b)
                                && f.return_parameters@[b].info.id == id;
                        if a < i {
                            assert(all.take(i as int)[a] == all.take(i + 1)[a]);
                            assert(first_return_named(*f, all.take(i as int)[a], b));
                        } else {
                            assert(all.take(i + 1)[a] == all[i as int]);
                            if k < n {
                                if b < k {
                                    assert(f.return_parameters@[b].name@ != names@[i as int]@);
                                } else if b > k {
                                    assert(f.return_parameters@[k as int].name@ == all[i as int]);
                                }
                            } else {
                                assert(f.return_parameters@[b].name@ != names@[i as int]@);
                            }
                        }
                    }
                    if yul_assigned(*f, all.take(i as int)).contains(id) {
                        let (a, b) = choose|a: int, b: int|
                            0 <= a < all.take(i as int).len() && #[trigger] first_return_named(*f, all.take(i as int)[a], b)
                                && f.return_parameters@[b].info.id == id;
                        assert(all.take(i as int)[a] == all.take(i + 1)[a]);
                        assert(first_return_named(*f, all.take(i + 1)[a], b));
                    }
                    if k < n && id == f.return_parameters@[k as int].info.id {
                        assert(all.take(i + 1)[i as int] == all[i as int]);
                        assert(first_return_named(*f, all.take(i + 1)[i as int], k as int));
                    }
                }
                assert(self.assigned_set() =~= old(self).assigned_set().union(
                    Set::new(|q: (NodeId, NodeId)| q.0 == f.info.id && yul_assigned(*f, all.take(i + 1)).contains(q.1)),
                ));
            }
            i = i + 1;
        }
        assert(all.take(names@.len() as int) =~= all);
    }
}

} // verus!
