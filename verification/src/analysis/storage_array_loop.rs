//! Loops whose condition reads the length of a storage array on every iteration.
use vstd::prelude::*;
use crate::analysis::{printed_at_if, DefCtx, Output};
use crate::ast::{Expression, ForStatement, FunctionDefinition, NodeId, StorageLocation, TypeName, VariableDeclaration, WhileStatement};
use crate::query::{definition_id, function_or_modifier_id, referenced_declarations, refs};
use crate::render::{function_summary, function_summary_text, AnalysisError};
use crate::text::str_eq;

verus! {

/// The expression reads `.length` of one of the storage arrays `arrays`:
/// directly, on either side of a binary operation, in either branch of a
/// conditional, on the right of an assignment, or in a tuple component.
pub open spec fn reads_length(arrays: Seq<NodeId>, e: Expression) -> bool
    decreases e,
{
    match e {
        Expression::BinaryOperation(b) => reads_length(arrays, *b.left_expression) || reads_length(arrays, *b.right_expression),
        Expression::Conditional(c) => reads_length(arrays, *c.true_expression) || reads_length(arrays, *c.false_expression),
        Expression::Assignment(a) => reads_length(arrays, *a.right_hand_side),
        Expression::MemberAccess(m) => refs(*m.expression).len() > 0 && m.member_name@ == "length"@ && arrays.contains(
            refs(*m.expression).last(),
        ),
        Expression::TupleExpression(t) => reads_length_list(arrays, t.components@),
        _ => false,
    }
}

pub open spec fn reads_length_list(arrays: Seq<NodeId>, cs: Seq<Option<Expression>>) -> bool
    decreases cs,
{
    if cs.len() == 0 {
        false
    } else {
        reads_length_list(arrays, cs.subrange(0, cs.len() - 1)) || match cs[cs.len() - 1] {
            Some(x) => reads_length(arrays, x),
            None => false,
        }
    }
}

/// A declaration of a storage array: stored in storage (a state variable
/// that names no location is), with an array type.
pub open spec fn is_storage_array(v: VariableDeclaration, state: bool) -> bool {
    &&& (v.storage_location == StorageLocation::Storage || (state && v.storage_location == StorageLocation::Default && v.state_variable))
    &&& v.ty matches Some(TypeName::ArrayTypeName { .. })
}

pub open spec fn loop_text(c: crate::ast::ContractDefinition, f: FunctionDefinition) -> Seq<char> {
    function_summary_text(c, f) + " performs a loop over a storage array, querying the length over each iteration"@
}

pub struct StorageArrayLoopVisitor {
    /// The storage arrays declared so far.
    pub storage_arrays: Vec<NodeId>,
    /// For each function walked, whether it loops over a storage array's length.
    pub functions: Vec<(NodeId, bool)>,
}

impl StorageArrayLoopVisitor {
    pub fn new() -> (r: Self)
        ensures
            r.storage_arrays@.len() == 0,
            r.functions@.len() == 0,
    {
        StorageArrayLoopVisitor { storage_arrays: Vec::new(), functions: Vec::new() }
    }

    fn is_array(&self, id: NodeId) -> (r: bool)
        ensures
            r == self.storage_arrays@.contains(id),
    {
        let mut k: usize = 0;
        while k < self.storage_arrays.len()
            invariant
                k <= self.storage_arrays@.len(),
                forall|j: int| 0 <= j < k ==> self.storage_arrays@[j] != id,
            decreases self.storage_arrays@.len() - k,
        {
            if self.storage_arrays[k] == id {
                assert(self.storage_arrays@[k as int] == id);
                return true;
            }
            k = k + 1;
        }
        false
    }

    fn add_array(&mut self, id: NodeId)
        ensures
            forall|x: NodeId| #[trigger] final(self).storage_arrays@.contains(x) <==> (old(self).storage_arrays@.contains(x) || x == id),
            final(self).functions == old(self).functions,
    {
        if !self.is_array(id) {
            self.storage_arrays.push(id);
            assert forall|x: NodeId| #[trigger] self.storage_arrays@.contains(x) <==> (old(self).storage_arrays@.contains(x) || x == id) by {
                if self.storage_arrays@.contains(x) {
                    let j = choose|j: int| 0 <= j < self.storage_arrays@.len() && self.storage_arrays@[j] == x;
                    if j < old(self).storage_arrays@.len() {
                        assert(old(self).storage_arrays@[j] == x);
                    }
                }
                if old(self).storage_arrays@.contains(x) {
                    let j = choose|j: int| 0 <= j < old(self).storage_arrays@.len() && old(self).storage_arrays@[j] == x;
                    assert(self.storage_arrays@[j] == x);
                }
                if x == id {
                    assert(self.storage_arrays@[old(self).storage_arrays@.len() as int] == x);
                }
            }
        }
    }

    fn find(&self, id: NodeId) -> (r: Option<usize>)
        ensures
            r matches Some(k) ==> k < self.functions@.len() && self.functions@[k as int].0 == id
                && forall|j: int| 0 <= j < k ==> self.functions@[j].0 != id,
            r is None ==> forall|k: int| 0 <= k < self.functions@.len() ==> self.functions@[k].0 != id,
    {
        let mut k: usize = 0;
        while k < self.functions.len()
            invariant
                k <= self.functions@.len(),
                forall|j: int| 0 <= j < k ==> self.functions@[j].0 != id,
            decreases self.functions@.len() - k,
        {
            if self.functions[k].0 == id {
                return Some(k);
            }
            k = k + 1;
        }
        None
    }

    /// Whether the function `id` was found to loop over a storage array's length.
    pub open spec fn loops(&self, id: NodeId) -> bool {
        exists|k: int|
            0 <= k < self.functions@.len() && (#[trigger] self.functions@[k]).0 == id && self.functions@[k].1
                && forall|j: int| 0 <= j < k ==> self.functions@[j].0 != id
    }

    fn reads_array_length(&self, e: &Expression) -> (r: bool)
        ensures
            r == reads_length(self.storage_arrays@, *e),
        decreases e,
    {
        match e {
            Expression::BinaryOperation(b) => self.reads_array_length(&b.left_expression) || self.reads_array_length(
                &b.right_expression,
            ),
            Expression::Conditional(c) => self.reads_array_length(&c.true_expression) || self.reads_array_length(
                &c.false_expression,
            ),
            Expression::Assignment(a) => self.reads_array_length(&a.right_hand_side),
            Expression::MemberAccess(m) => {
                let ids = referenced_declarations(&m.expression);
                ids.len() > 0 && str_eq(m.member_name.as_str(), "length") && self.is_array(ids[ids.len() - 1])
            },
            Expression::TupleExpression(t) => {
                let n = t.components.len();
                let mut i: usize = 0;
                assert(t.components@.subrange(0, 0) =~= Seq::<Option<Expression>>::empty());
                while i < n
                    invariant
                        *e == Expression::TupleExpression(*t),
                        n == t.components@.len(),
                        i <= n,
                        !reads_length_list(self.storage_arrays@, t.components@.subrange(0, i as int)),
                    decreases n - i,
                {
                    assert(t.components@.subrange(0, i + 1).subrange(0, i as int) =~= t.components@.subrange(0, i as int));
                    if let Some(x) = &t.components[i] {
                        proof {
                            assert(decreases_to!(*e => (*e)->TupleExpression_0));
                            assert(decreases_to!(*t => t.components));
                            assert(decreases_to!(t.components => t.components@));
                            assert(decreases_to!(t.components@ => t.components@[i as int]));
                            assert(decreases_to!(t.components@[i as int] => t.components@[i as int]->Some_0));
                        }
                        if self.reads_array_length(x) {
                            proof { lemma_reads_length_list_prefix(self.storage_arrays@, t.components@, i + 1); }
                            return true;
                        }
                    }
                    i = i + 1;
                }
                assert(t.components@.subrange(0, n as int) =~= t.components@);
                false
            },
            _ => false,
        }
    }

    /// Starts the record of a function, and records its storage array parameters.
    pub fn visit_function_definition(&mut self, f: &FunctionDefinition)
        ensures
            Self::noted_parameters(*old(self), *final(self), *f),
            forall|id: NodeId| #[trigger] final(self).loops(id) == old(self).loops(id),
    {
        if self.find(f.info.id).is_none() {
            let ghost before = *self;
            self.functions.push((f.info.id, false));
            assert forall|id: NodeId| #[trigger] self.loops(id) == before.loops(id) by {
                if self.loops(id) {
                    let k = choose|k: int| 0 <= k < self.functions@.len() && (#[trigger] self.functions@[k]).0 == id && self.functions@[k].1
                        && forall|j: int| 0 <= j < k ==> self.functions@[j].0 != id;
                    assert(k < before.functions@.len());
                    assert(before.functions@[k] == self.functions@[k]);
                    assert forall|j: int| 0 <= j < k implies before.functions@[j].0 != id by {
                        assert(self.functions@[j] == before.functions@[j]);
                    }
                }
                if before.loops(id) {
                    let k = choose|k: int| 0 <= k < before.functions@.len() && (#[trigger] before.functions@[k]).0 == id && before.functions@[k].1
                        && forall|j: int| 0 <= j < k ==> before.functions@[j].0 != id;
                    assert(self.functions@[k] == before.functions@[k]);
                    assert forall|j: int| 0 <= j < k implies self.functions@[j].0 != id by {
                        assert(self.functions@[j] == before.functions@[j]);
                    }
                }
            }
        }
        let ghost mid = *self;
        let n = f.parameters.len();
        let mut k: usize = 0;
        while k < n
            invariant
                n == f.parameters@.len(),
                k <= n,
                self.functions == mid.functions,
                forall|id: NodeId| #[trigger] mid.loops(id) == old(self).loops(id),
                forall|x: NodeId| #[trigger] self.storage_arrays@.contains(x) <==> (old(self).storage_arrays@.contains(x) || exists|j: int|
                    0 <= j < k && is_storage_array(f.parameters@[j], false) && f.parameters@[j].info.id == x),
            decreases n - k,
        {
            let p = &f.parameters[k];
            let arr = p.storage_location == StorageLocation::Storage && match &p.ty {
                Some(TypeName::ArrayTypeName { .. }) => true,
                _ => false,
            };
            if arr {
                self.add_array(p.info.id);
            }
            assert forall|x: NodeId| #[trigger] self.storage_arrays@.contains(x) <==> (old(self).storage_arrays@.contains(x) || exists|j: int|
                0 <= j < k + 1 && is_storage_array(f.parameters@[j], false) && f.parameters@[j].info.id == x) by {
                if exists|j: int| 0 <= j < k + 1 && is_storage_array(f.parameters@[j], false) && f.parameters@[j].info.id == x {
                    let j = choose|j: int| 0 <= j < k + 1 && is_storage_array(f.parameters@[j], false) && f.parameters@[j].info.id == x;
                    if j == k {
                        assert(arr);
                    }
                }
                if arr && x == p.info.id {
                    assert(is_storage_array(f.parameters@[k as int], false));
                }
            }
            k = k + 1;
        }
        assert forall|id: NodeId| #[trigger] self.loops(id) == old(self).loops(id) by {
            assert(self.loops(id) == mid.loops(id));
        }
    }

    /// `after` is `before` having seen the declaration `v`.
    pub open spec fn noted_array(before: Self, after: Self, v: VariableDeclaration) -> bool {
        &&& forall|x: NodeId| #[trigger] after.storage_arrays@.contains(x) <==> (before.storage_arrays@.contains(x) || (
            is_storage_array(v, true) && x == v.info.id))
        &&& after.functions == before.functions
    }

    /// A declaration of array type is recorded as a storage array exactly when
    /// it is stored in storage: declared `storage`, or a state variable that
    /// names no location. A `memory` or `calldata` array, a local that names
    /// no location, or a declaration of another type is not recorded.
    pub proof fn lemma_storage_arrays_noted(before: Self, after: Self, v: VariableDeclaration)
        requires
            Self::noted_array(before, after, v),
            !before.storage_arrays@.contains(v.info.id),
        ensures
            after.storage_arrays@.contains(v.info.id) <==> (v.ty matches Some(TypeName::ArrayTypeName { .. })) && (
            v.storage_location == StorageLocation::Storage || (v.state_variable && v.storage_location
                == StorageLocation::Default)),
    {
        assert(after.storage_arrays@.contains(v.info.id) <==> is_storage_array(v, true));
    }

    /// `after` records the storage arrays `before` did and the parameters of
    /// `f` that are storage arrays.
    pub open spec fn noted_parameters(before: Self, after: Self, f: FunctionDefinition) -> bool {
        forall|x: NodeId| #[trigger] after.storage_arrays@.contains(x) <==> (before.storage_arrays@.contains(x) || exists|k: int|
            0 <= k < f.parameters@.len() && is_storage_array(f.parameters@[k], false) && f.parameters@[k].info.id == x)
    }

    /// A parameter of array type is recorded as a storage array exactly when
    /// it is declared `storage`; parameters never default to storage.
    pub proof fn lemma_storage_parameters_noted(before: Self, after: Self, f: FunctionDefinition, k: int)
        requires
            Self::noted_parameters(before, after, f),
            0 <= k < f.parameters@.len(),
            forall|j: int| 0 <= j < f.parameters@.len() ==> !before.storage_arrays@.contains(#[trigger] f.parameters@[j].info.id),
            forall|j: int| 0 <= j < f.parameters@.len() && j != k ==> f.parameters@[j].info.id != f.parameters@[k].info.id,
        ensures
            after.storage_arrays@.contains(f.parameters@[k].info.id) <==> (f.parameters@[k].ty matches Some(
                TypeName::ArrayTypeName { .. },
            )) && f.parameters@[k].storage_location == StorageLocation::Storage,
    {
        let p = f.parameters@[k];
        if after.storage_arrays@.contains(p.info.id) {
            let j = choose|j: int|
                0 <= j < f.parameters@.len() && is_storage_array(f.parameters@[j], false) && f.parameters@[j].info.id == p.info.id;
            assert(j == k);
        }
    }

    /// Records a storage array state variable.
    pub fn visit_variable_declaration(&mut self, v: &VariableDeclaration)
        ensures
            Self::noted_array(*old(self), *final(self), *v),
    {
        let storage = v.storage_location == StorageLocation::Storage || (v.storage_location == StorageLocation::Default
            && v.state_variable);
        let arr = match &v.ty {
            Some(TypeName::ArrayTypeName { .. }) => true,
            _ => false,
        };
        if storage && arr {
            self.add_array(v.info.id);
        }
    }

    fn mark(&mut self, ctx: &DefCtx, e: &Expression)
        ensures
            final(self).storage_arrays == old(self).storage_arrays,
            forall|id: NodeId| #[trigger] final(self).loops(id) == (old(self).loops(id) || (definition_id(*ctx.node) == Some(id)
                && reads_length(old(self).storage_arrays@, *e) && exists|k: int| 0 <= k < old(self).functions@.len()
                && (#[trigger] old(self).functions@[k]).0 == id)),
    {
        let def = match function_or_modifier_id(ctx.node) {
            Some(d) => d,
            None => return,
        };
        if !self.reads_array_length(e) {
            return;
        }
        match self.find(def) {
            Some(k) => {
                let ghost before = *self;
                self.functions.set(k, (def, true));
                assert forall|id: NodeId| #[trigger] self.loops(id) == (before.loops(id) || id == def) by {
                    if id == def {
                        assert(self.functions@[k as int].0 == id && self.functions@[k as int].1);
                        assert(forall|j: int| 0 <= j < k ==> self.functions@[j].0 != id);
                    }
                    if self.loops(id) && id != def {
                        let q = choose|q: int| 0 <= q < self.functions@.len() && (#[trigger] self.functions@[q]).0 == id && self.functions@[q].1
                            && forall|j: int| 0 <= j < q ==> self.functions@[j].0 != id;
                        assert(q != k);
                        assert(before.functions@[q] == self.functions@[q]);
                        assert forall|j: int| 0 <= j < q implies before.functions@[j].0 != id by {
                            if j != k {
                                assert(before.functions@[j] == self.functions@[j]);
                            }
                        }
                    }
                    if before.loops(id) && id != def {
                        let q = choose|q: int| 0 <= q < before.functions@.len() && (#[trigger] before.functions@[q]).0 == id && before.functions@[q].1
                            && forall|j: int| 0 <= j < q ==> before.functions@[j].0 != id;
                        assert(q != k);
                        assert(self.functions@[q] == before.functions@[q]);
                        assert forall|j: int| 0 <= j < q implies self.functions@[j].0 != id by {
                            if j != k {
                                assert(before.functions@[j] == self.functions@[j]);
                            }
                        }
                    }
                }
            },
            None => {},
        }
    }

    /// Marks the function or modifier walked where a `for` condition reads a
    /// storage array's length.
    pub fn visit_for_statement(&mut self, ctx: &DefCtx, st: &ForStatement)
        ensures
            final(self).storage_arrays == old(self).storage_arrays,
            forall|id: NodeId| #[trigger] final(self).loops(id) == (old(self).loops(id) || (definition_id(*ctx.node) == Some(id)
                && (st.condition matches Some(c) && reads_length(old(self).storage_arrays@, c)) && exists|k: int| 0 <= k < old(self).functions@.len()
                && (#[trigger] old(self).functions@[k]).0 == id)),
    {
        match &st.condition {
            Some(c) => self.mark(ctx, c),
            None => {},
        }
    }

    /// Marks the function or modifier walked where a `while` condition reads
    /// a storage array's length.
    pub fn visit_while_statement(&mut self, ctx: &DefCtx, st: &WhileStatement)
        ensures
            final(self).storage_arrays == old(self).storage_arrays,
            forall|id: NodeId| #[trigger] final(self).loops(id) == (old(self).loops(id) || (definition_id(*ctx.node) == Some(id)
                && reads_length(old(self).storage_arrays@, st.condition) && exists|k: int| 0 <= k < old(self).functions@.len()
                && (#[trigger] old(self).functions@[k]).0 == id)),
    {
        self.mark(ctx, &st.condition)
    }

    /// Prints the function being left where it loops over a storage array's length.
    pub fn leave_function_definition(&mut self, ctx: &DefCtx, f: &FunctionDefinition, out: &mut Output) -> (r: Result<
        (),
        AnalysisError,
    >)
        requires
            old(out).wf(),
        ensures
            final(out).wf(),
            old(out).extends(*final(out)),
            *final(self) == *old(self),
            printed_at_if(*old(out), *final(out), *ctx.unit, f.info.src@, old(self).loops(f.info.id), loop_text(*ctx.contract, *f), r is Ok),
    {
        proof { Output::lemma_extends_refl(*out); }
        match self.find(f.info.id) {
            Some(k) => {
                if self.functions[k].1 {
                    let msg = function_summary(ctx.contract, f).concat(
                        " performs a loop over a storage array, querying the length over each iteration",
                    );
                    return out.print_at(ctx.unit, f.info.src.as_str(), msg);
                }
                assert(!self.loops(f.info.id)) by {
                    if self.loops(f.info.id) {
                        let q = choose|q: int| 0 <= q < self.functions@.len() && (#[trigger] self.functions@[q]).0 == f.info.id && self.functions@[q].1
                            && forall|j: int| 0 <= j < q ==> self.functions@[j].0 != f.info.id;
                        assert(q == k);
                    }
                }
                Ok(())
            },
            None => Ok(()),
        }
    }
}

proof fn lemma_reads_length_list_prefix(arrays: Seq<NodeId>, cs: Seq<Option<Expression>>, k: int)
    requires
        0 <= k <= cs.len(),
        reads_length_list(arrays, cs.subrange(0, k)),
    ensures
        reads_length_list(arrays, cs),
    decreases cs.len() - k,
{
    if k < cs.len() {
        assert(cs.subrange(0, k + 1).subrange(0, k) =~= cs.subrange(0, k));
        lemma_reads_length_list_prefix(arrays, cs, k + 1);
    } else {
        assert(cs.subrange(0, k) =~= cs);
    }
}

} // verus!
