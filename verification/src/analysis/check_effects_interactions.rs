//! Functions that write state after making an external call, against the
//! Check-Effects-Interactions pattern.
use vstd::prelude::*;
use crate::analysis::{printed_at_if, DefCtx, Output};
use crate::ast::{
    Assignment, ContractDefinitionNode, Expression, FunctionDefinition, FunctionKind, Identifier, MemberAccess, NodeId,
    Statement,
};
use crate::query::{
    assigned_vars, function_with_property, get_assigned_state_variables, hierarchy_contains_state_variable,
    in_hierarchy, root_expression, root_of, some_function_with, FunctionProperty,
};
use crate::render::{function_summary, function_summary_text, u64_to_string, i64_to_string, AnalysisError};
use crate::text::str_eq;

verus! {

pub open spec fn pattern_text(c: crate::ast::ContractDefinition, f: FunctionDefinition) -> Seq<char> {
    function_summary_text(c, f) + " ignores the Check-Effects-Interactions pattern"@
}

/// The identifier an access expression is rooted at, where it is one.
pub open spec fn root_identifier(e: Expression) -> Option<NodeId> {
    match root_of(e) {
        Some(Expression::Identifier(i)) => Some(i.referenced_declaration),
        _ => None,
    }
}

/// An assignment target that is an access (index, range or member) rooted
/// at a local variable bound to a state variable.
pub open spec fn writes_through_binding(bound: Seq<NodeId>, e: Expression) -> bool {
    (e is IndexAccess || e is IndexRangeAccess || e is MemberAccess) && match root_identifier(e) {
        Some(id) => bound.contains(id),
        None => false,
    }
}

/// A tuple component that writes through a bound local.
pub open spec fn component_writes_through(bound: Seq<NodeId>, c: Option<Expression>) -> bool {
    match c {
        Some(x) => writes_through_binding(bound, x),
        None => false,
    }
}

/// A tuple component the analysis does not know how to follow: one that is
/// there and is neither an identifier nor an index, range or member access.
pub open spec fn unknown_component(c: Option<Expression>) -> bool {
    match c {
        Some(x) => !(x is Identifier || x is IndexAccess || x is IndexRangeAccess || x is MemberAccess),
        None => false,
    }
}

/// The warnings printed for the components `cs` of an assigned tuple: one per
/// component not known, up to the first component that writes through a
/// bound local.
pub open spec fn tuple_warnings(bound: Seq<NodeId>, cs: Seq<Option<Expression>>) -> Seq<Seq<char>>
    decreases cs.len(),
{
    if cs.len() == 0 {
        Seq::empty()
    } else {
        let prev = tuple_warnings(bound, cs.drop_last());
        if (exists|j: int| 0 <= j < cs.len() - 1 && component_writes_through(bound, #[trigger] cs[j]))
            || component_writes_through(bound, cs.last()) || !unknown_component(cs.last()) {
            prev
        } else {
            prev.push("\tWARNING: unhandled assignment in tuple"@)
        }
    }
}

/// Past a component that writes through a bound local, no more warnings are
/// printed for a tuple.
proof fn lemma_tuple_warnings_stop(bound: Seq<NodeId>, cs: Seq<Option<Expression>>, k: int, n: int)
    requires
        0 <= k < n <= cs.len(),
        component_writes_through(bound, cs[k]),
    ensures
        tuple_warnings(bound, cs.take(n)) == tuple_warnings(bound, cs.take(k)),
    decreases n - k,
{
    assert(cs.take(n).drop_last() =~= cs.take(n - 1));
    if n == k + 1 {
        assert(cs.take(n).last() == cs[k]);
    } else {
        lemma_tuple_warnings_stop(bound, cs, k, n - 1);
        assert(cs.take(n)[k] == cs[k]);
    }
}

/// Identifiers as decimal numbers separated by `, `.
pub open spec fn ids_text(ids: Seq<NodeId>) -> Seq<char>
    decreases ids.len(),
{
    if ids.len() == 0 {
        Seq::empty()
    } else if ids.len() == 1 {
        crate::render::signed_digits(ids[0] as int)
    } else {
        ids_text(ids.drop_last()) + ", "@ + crate::render::signed_digits(ids.last() as int)
    }
}

/// The warning printed for a declaration of several variables from an
/// expression that reads the state variables `ids`.
pub open spec fn tuple_warning(ids: Seq<NodeId>) -> Seq<char> {
    "\tWARNING: tuple or multiple assignments not handled: ["@ + ids_text(ids) + "]"@
}

/// How many of `ids` are state variables of the hierarchy of `c`.
pub open spec fn hierarchy_count(units: Seq<crate::ast::SourceUnit>, c: crate::ast::ContractDefinition, ids: Seq<NodeId>) -> nat
    decreases ids.len(),
{
    if ids.len() == 0 {
        0
    } else {
        hierarchy_count(units, c, ids.drop_last()) + if in_hierarchy(units, c, ids.last()) { 1nat } else { 0nat }
    }
}

/// The warning line for a declaration of several variables.
fn ids_string(ids: &Vec<NodeId>) -> (r: String)
    ensures
        r@ == tuple_warning(ids@),
{
    let mut line = String::from_str("\tWARNING: tuple or multiple assignments not handled: [");
    let ghost head = line@;
    let mut j: usize = 0;
    assert(ids@.take(0) =~= Seq::<NodeId>::empty());
    while j < ids.len()
        invariant
            j <= ids@.len(),
            line@ == head + ids_text(ids@.take(j as int)),
            head == "\tWARNING: tuple or multiple assignments not handled: ["@,
        decreases ids@.len() - j,
    {
        assert(ids@.take(j + 1).drop_last() =~= ids@.take(j as int));
        assert(ids@.take(j + 1).last() == ids@[j as int]);
        let ghost before = line@;
        if j > 0 {
            line.append(", ");
        }
        line.append(i64_to_string(ids[j]).as_str());
        proof {
            if j == 0 {
                assert(ids@.take(1)[0] == ids@[0]);
                assert(line@ =~= head + ids_text(ids@.take(1)));
            } else {
                assert(line@ =~= head + ids_text(ids@.take(j + 1)));
            }
        }
        j = j + 1;
    }
    assert(ids@.take(ids@.len() as int) =~= ids@);
    line.append("]");
    line
}

pub struct CheckEffectsInteractionsVisitor {
    /// The function walked has made an external call.
    pub makes_external_call: bool,
    /// The function walked has written state after an external call.
    pub makes_post_external_call_assignment: bool,
    /// Local variables bound to state variables: (state variable, local).
    pub bindings: Vec<(NodeId, NodeId)>,
}

impl CheckEffectsInteractionsVisitor {
    pub fn new() -> (r: Self)
        ensures
            !r.makes_external_call,
            !r.makes_post_external_call_assignment,
            r.bindings@.len() == 0,
    {
        CheckEffectsInteractionsVisitor {
            makes_external_call: false,
            makes_post_external_call_assignment: false,
            bindings: Vec::new(),
        }
    }

    /// The locals bound to some state variable.
    pub open spec fn bound_locals(&self) -> Seq<NodeId> {
        self.bindings@.map_values(|b: (NodeId, NodeId)| b.1)
    }

    /// Starts a function: no external call, no write after one.
    pub fn visit_function_definition(&mut self)
        ensures
            !final(self).makes_external_call,
            !final(self).makes_post_external_call_assignment,
            final(self).bindings == old(self).bindings,
    {
        self.makes_external_call = false;
        self.makes_post_external_call_assignment = false;
    }

    /// Prints the function being left, unless a constructor, where it wrote
    /// state after an external call.
    pub fn leave_function_definition(&mut self, ctx: &DefCtx, f: &FunctionDefinition, out: &mut Output) -> (r: Result<
        (),
        AnalysisError,
    >)
        requires
            old(out).wf(),
        ensures
            final(out).wf(),
            old(out).extends(*final(out)),
            *final(self) == *old(self),
            printed_at_if(
                *old(out),
                *final(out),
                *ctx.unit,
                f.info.src@,
                f.kind != FunctionKind::Constructor && old(self).makes_external_call
                    && old(self).makes_post_external_call_assignment,
                pattern_text(*ctx.contract, *f),
                r is Ok,
            ),
    {
        proof { Output::lemma_extends_refl(*out); }
        if f.kind == FunctionKind::Constructor || !(self.makes_external_call && self.makes_post_external_call_assignment) {
            return Ok(());
        }
        let msg = function_summary(ctx.contract, f).concat(" ignores the Check-Effects-Interactions pattern");
        out.print_at(ctx.unit, f.info.src.as_str(), msg)
    }

    fn is_bound(&self, local: NodeId) -> (r: bool)
        ensures
            r == self.bound_locals().contains(local),
    {
        let mut k: usize = 0;
        while k < self.bindings.len()
            invariant
                k <= self.bindings@.len(),
                forall|j: int| 0 <= j < k ==> self.bindings@[j].1 != local,
            decreases self.bindings@.len() - k,
        {
            if self.bindings[k].1 == local {
                assert(self.bound_locals()[k as int] == local);
                return true;
            }
            k = k + 1;
        }
        assert forall|j: int| 0 <= j < self.bound_locals().len() implies self.bound_locals()[j] != local by {
            assert(self.bound_locals()[j] == self.bindings@[j].1);
        }
        false
    }

    fn bind(&mut self, var: NodeId, local: NodeId)
        ensures
            forall|b: (NodeId, NodeId)| #[trigger] final(self).bindings@.contains(b) <==> (old(self).bindings@.contains(b) || b == (var, local)),
            final(self).makes_external_call == old(self).makes_external_call,
            final(self).makes_post_external_call_assignment == old(self).makes_post_external_call_assignment,
    {
        let mut k: usize = 0;
        while k < self.bindings.len()
            invariant
                k <= self.bindings@.len(),
                forall|j: int| 0 <= j < k ==> self.bindings@[j] != (var, local),
            decreases self.bindings@.len() - k,
        {
            if self.bindings[k].0 == var && self.bindings[k].1 == local {
                assert(self.bindings@[k as int] == (var, local));
                return;
            }
            k = k + 1;
        }
        self.bindings.push((var, local));
        assert forall|b: (NodeId, NodeId)| #[trigger] self.bindings@.contains(b) <==> (old(self).bindings@.contains(b) || b == (var, local)) by {
            if self.bindings@.contains(b) {
                let j = choose|j: int| 0 <= j < self.bindings@.len() && self.bindings@[j] == b;
                if j < old(self).bindings@.len() {
                    assert(old(self).bindings@[j] == b);
                }
            }
            if old(self).bindings@.contains(b) {
                let j = choose|j: int| 0 <= j < old(self).bindings@.len() && old(self).bindings@[j] == b;
                assert(self.bindings@[j] == b);
            }
            if b == (var, local) {
                assert(self.bindings@[old(self).bindings@.len() as int] == b);
            }
        }
    }

    /// Records a local declared from a state variable of the hierarchy as
    /// bound to it; a statement that declares several variables at once is
    /// printed as not handled, once for each such state variable.
    pub fn visit_statement(&mut self, ctx: &DefCtx, s: &Statement, out: &mut Output)
        requires
            old(out).wf(),
        ensures
            final(out).wf(),
            old(out).extends(*final(out)),
            final(out).report == old(out).report,
            final(self).makes_external_call == old(self).makes_external_call,
            final(self).makes_post_external_call_assignment == old(self).makes_post_external_call_assignment,
            match *s {
                Statement::VariableDeclarationStatement(d) => match d.initial_value {
                    Some(e) => {
                        let ids = assigned_vars(ctx.units@, *ctx.contract, e);
                        if d.declarations@.len() > 1 {
                            &&& final(self).bindings == old(self).bindings
                            &&& final(out).printed@.map_values(|l: String| l@) == old(out).printed@.map_values(
                                |l: String| l@,
                            ) + Seq::new(hierarchy_count(ctx.units@, *ctx.contract, ids), |i: int| tuple_warning(ids))
                        } else if d.declarations@.len() == 1 && d.declarations@[0] is Some {
                            &&& final(out).printed == old(out).printed
                            &&& forall|b: (NodeId, NodeId)| #[trigger] final(self).bindings@.contains(b) <==> (old(
                                self,
                            ).bindings@.contains(b) || (b.1 == d.declarations@[0]->Some_0.info.id && ids.contains(b.0)
                                && in_hierarchy(ctx.units@, *ctx.contract, b.0)))
                        } else {
                            final(out).printed == old(out).printed && final(self).bindings == old(self).bindings
                        }
                    },
                    None => *final(out) == *old(out) && *final(self) == *old(self),
                },
                _ => *final(out) == *old(out) && *final(self) == *old(self),
            },
    {
        proof { Output::lemma_extends_refl(*out); }
        let (decls, e) = match s {
            Statement::VariableDeclarationStatement(d) => match &d.initial_value {
                Some(e) => (&d.declarations, e),
                None => return,
            },
            _ => return,
        };
        let ids = get_assigned_state_variables(ctx.units, ctx.contract, e);
        let ghost start = old(out).printed@.map_values(|l: String| l@);
        let mut k: usize = 0;
        assert(ids@.take(0) =~= Seq::<NodeId>::empty());
        assert(start + Seq::new(0, |i: int| tuple_warning(ids@)) =~= start);
        while k < ids.len()
            invariant
                k <= ids@.len(),
                match *s {
                    Statement::VariableDeclarationStatement(d) => d.declarations == *decls && d.initial_value == Some(*e),
                    _ => false,
                },
                ids@ == assigned_vars(ctx.units@, *ctx.contract, *e),
                out.wf(),
                old(out).extends(*out),
                out.report == old(out).report,
                start == old(out).printed@.map_values(|l: String| l@),
                self.makes_external_call == old(self).makes_external_call,
                self.makes_post_external_call_assignment == old(self).makes_post_external_call_assignment,
                decls@.len() > 1 ==> self.bindings == old(self).bindings && out.printed@.map_values(|l: String| l@)
                    == start + Seq::new(hierarchy_count(ctx.units@, *ctx.contract, ids@.take(k as int)), |i: int| tuple_warning(ids@)),
                decls@.len() == 1 && decls@[0] is Some ==> out.printed == old(out).printed && forall|b: (NodeId, NodeId)|
                    #[trigger] self.bindings@.contains(b) <==> (old(self).bindings@.contains(b) || (b.1
                        == decls@[0]->Some_0.info.id && ids@.take(k as int).contains(b.0) && in_hierarchy(
                        ctx.units@,
                        *ctx.contract,
                        b.0,
                    ))),
                !(decls@.len() > 1) && !(decls@.len() == 1 && decls@[0] is Some) ==> out.printed == old(out).printed
                    && self.bindings == old(self).bindings,
            decreases ids@.len() - k,
        {
            let id = ids[k];
            assert(ids@.take(k + 1).drop_last() =~= ids@.take(k as int));
            assert(ids@.take(k + 1).last() == id);
            assert(forall|x: NodeId| #[trigger] ids@.take(k + 1).contains(x) <==> (ids@.take(k as int).contains(x) || x == id)) by {
                assert forall|x: NodeId| ids@.take(k + 1).contains(x) implies (ids@.take(k as int).contains(x) || x == id) by {
                    let j = choose|j: int| 0 <= j < k + 1 && #[trigger] ids@.take(k + 1)[j] == x;
                    if j < k {
                        assert(ids@.take(k as int)[j] == x);
                    }
                }
                assert forall|x: NodeId| ids@.take(k as int).contains(x) implies ids@.take(k + 1).contains(x) by {
                    let j = choose|j: int| 0 <= j < k && #[trigger] ids@.take(k as int)[j] == x;
                    assert(ids@.take(k + 1)[j] == x);
                }
                assert(ids@.take(k + 1)[k as int] == id);
            }
            if hierarchy_contains_state_variable(ctx.units, ctx.contract, id) {
                if decls.len() > 1 {
                    let line = ids_string(&ids);
                    let ghost before = out.printed@.map_values(|l: String| l@);
                    out.print(line);
                    proof {
                        let c0 = hierarchy_count(ctx.units@, *ctx.contract, ids@.take(k as int));
                        assert(out.printed@.map_values(|l: String| l@) =~= before.push(tuple_warning(ids@)));
                        assert(start + Seq::new(c0 + 1, |i: int| tuple_warning(ids@)) =~= (start + Seq::new(
                            c0,
                            |i: int| tuple_warning(ids@),
                        )).push(tuple_warning(ids@)));
                    }
                } else {
                    if decls.len() == 0 {
                        return;
                    }
                    let local = match &decls[0] {
                        Some(d) => d.info.id,
                        None => {
                            return;
                        },
                    };
                    self.bind(id, local);
                }
            }
            k = k + 1;
        }
        assert(ids@.take(ids@.len() as int) =~= ids@);
    }

    fn note_reference(&mut self, ctx: &DefCtx, id: NodeId)
        ensures
            final(self).makes_external_call == (old(self).makes_external_call || some_function_with(
                ctx.units@,
                id,
                FunctionProperty::External,
            )),
            final(self).makes_post_external_call_assignment == old(self).makes_post_external_call_assignment,
            final(self).bindings == old(self).bindings,
    {
        if self.makes_external_call {
            return;
        }
        if function_with_property(ctx.units, id, FunctionProperty::External) {
            self.makes_external_call = true;
        }
    }

    /// Notes an external call where an identifier refers to an external function.
    /// `after` is `before` having noted a reference to `id`, where there is one.
    pub open spec fn noted(before: Self, after: Self, units: Seq<crate::ast::SourceUnit>, id: Option<NodeId>) -> bool {
        &&& after.makes_external_call == (before.makes_external_call || (id matches Some(x) && some_function_with(
            units,
            x,
            FunctionProperty::External,
        )))
        &&& after.makes_post_external_call_assignment == before.makes_post_external_call_assignment
        &&& after.bindings == before.bindings
    }

    pub fn visit_identifier(&mut self, ctx: &DefCtx, i: &Identifier)
        ensures
            Self::noted(*old(self), *final(self), ctx.units@, Some(i.referenced_declaration)),
    {
        self.note_reference(ctx, i.referenced_declaration)
    }

    /// Notes an external call where a member access refers to an external function.
    pub fn visit_member_access(&mut self, ctx: &DefCtx, m: &MemberAccess)
        ensures
            Self::noted(*old(self), *final(self), ctx.units@, m.referenced_declaration),
    {
        match m.referenced_declaration {
            Some(id) => self.note_reference(ctx, id),
            None => {},
        }
    }

    /// `after` is `before` having seen the assignment `a`: in a function that
    /// made an external call and has no `nonReentrant` modifier, a write to
    /// state is noted.
    pub open spec fn noted_write(before: Self, after: Self, ctx: DefCtx, a: Assignment) -> bool {
        &&& after.makes_external_call == before.makes_external_call
        &&& after.bindings == before.bindings
        &&& after.makes_post_external_call_assignment == (before.makes_post_external_call_assignment || (
        *ctx.node matches ContractDefinitionNode::FunctionDefinition(f) && before.makes_external_call && !(exists|k: int|
            0 <= k < f.modifiers@.len() && (#[trigger] f.modifiers@[k]).modifier_name@ == "nonReentrant"@) && (
        assigned_vars(ctx.units@, *ctx.contract, *a.left_hand_side).len() > 0 || writes_through_binding(
            before.bound_locals(),
            *a.left_hand_side,
        ) || (*a.left_hand_side matches Expression::TupleExpression(t) && exists|k: int|
            0 <= k < t.components@.len() && component_writes_through(before.bound_locals(), #[trigger] t.components@[k])))))
    }

    /// The warnings printed on an assignment: where a write after an external
    /// call in a function without `nonReentrant` is being looked for, one for
    /// an assigned expression the analysis does not know how to follow, or one
    /// for each such tuple component.
    pub open spec fn assignment_warnings(&self, ctx: DefCtx, a: Assignment) -> Seq<Seq<char>> {
        if *ctx.node matches ContractDefinitionNode::FunctionDefinition(f) && self.makes_external_call
            && !self.makes_post_external_call_assignment && !(exists|k: int|
            0 <= k < f.modifiers@.len() && (#[trigger] f.modifiers@[k]).modifier_name@ == "nonReentrant"@) {
            match *a.left_hand_side {
                Expression::TupleExpression(t) => tuple_warnings(self.bound_locals(), t.components@),
                Expression::Identifier(_) => Seq::empty(),
                Expression::IndexAccess(_) => Seq::empty(),
                Expression::IndexRangeAccess(_) => Seq::empty(),
                Expression::MemberAccess(_) => Seq::empty(),
                _ => seq!["\tWARNING: unhandled assignment"@],
            }
        } else {
            Seq::empty()
        }
    }

    /// In a function that made an external call and has no `nonReentrant`
    /// modifier, notes a write to state: to a state variable of the
    /// hierarchy, or through a local bound to one.
    pub fn visit_assignment(&mut self, ctx: &DefCtx, a: &Assignment, out: &mut Output)
        requires
            old(out).wf(),
        ensures
            final(out).wf(),
            old(out).extends(*final(out)),
            final(out).report == old(out).report,
            Self::noted_write(*old(self), *final(self), *ctx, *a),
            final(out).printed@.map_values(|l: String| l@) == old(out).printed@.map_values(|l: String| l@)
                + old(self).assignment_warnings(*ctx, *a),
    {
        proof { Output::lemma_extends_refl(*out); }
        let ghost start = old(out).printed@.map_values(|l: String| l@);
        proof {
            reveal_strlit("nonReentrant");
            assert(start + Seq::<Seq<char>>::empty() =~= start);
        }
        let f = match ctx.node {
            ContractDefinitionNode::FunctionDefinition(f) => f,
            _ => return,
        };
        if !self.makes_external_call || self.makes_post_external_call_assignment {
            return;
        }
        let mut m: usize = 0;
        while m < f.modifiers.len()
            invariant
                m <= f.modifiers@.len(),
                out.wf(),
                *out == *old(out),
                *self == *old(self),
                *ctx.node == ContractDefinitionNode::FunctionDefinition(*f),
                forall|k: int| 0 <= k < m ==> (#[trigger] f.modifiers@[k]).modifier_name@ != "nonReentrant"@,
            decreases f.modifiers@.len() - m,
        {
            if str_eq(f.modifiers[m].modifier_name.as_str(), "nonReentrant") {
                return;
            }
            m = m + 1;
        }
        let ids = get_assigned_state_variables(ctx.units, ctx.contract, &a.left_hand_side);
        assert(self.bound_locals() == old(self).bound_locals());
        if ids.len() > 0 {
            self.makes_post_external_call_assignment = true;
        }
        match &*a.left_hand_side {
            Expression::IndexAccess(_) | Expression::IndexRangeAccess(_) | Expression::MemberAccess(_) => {
                if let Some(Expression::Identifier(i)) = root_expression(&a.left_hand_side) {
                    if self.is_bound(i.referenced_declaration) {
                        self.makes_post_external_call_assignment = true;
                        return;
                    }
                }
            },
            Expression::TupleExpression(t) => {
                let n = t.components.len();
                let mut k: usize = 0;
                assert(t.components@.take(0) =~= Seq::<Option<Expression>>::empty());
                while k < n
                    invariant
                        n == t.components@.len(),
                        k <= n,
                        *a.left_hand_side == Expression::TupleExpression(*t),
                        *ctx.node == ContractDefinitionNode::FunctionDefinition(*f),
                        old(self).makes_external_call,
                        !old(self).makes_post_external_call_assignment,
                        forall|j: int| 0 <= j < f.modifiers@.len() ==> (#[trigger] f.modifiers@[j]).modifier_name@ != "nonReentrant"@,
                        self.bound_locals() == old(self).bound_locals(),
                        out.wf(),
                        old(out).extends(*out),
                        out.report == old(out).report,
                        self.makes_external_call == old(self).makes_external_call,
                        self.bindings == old(self).bindings,
                        self.makes_post_external_call_assignment == (ids@.len() > 0),
                        ids@ == assigned_vars(ctx.units@, *ctx.contract, *a.left_hand_side),
                        forall|j: int| 0 <= j < k ==> !component_writes_through(old(self).bound_locals(), #[trigger] t.components@[j]),
                        start == old(out).printed@.map_values(|l: String| l@),
                        out.printed@.map_values(|l: String| l@) == start + tuple_warnings(old(self).bound_locals(), t.components@.take(k as int)),
                        old(self).assignment_warnings(*ctx, *a) == tuple_warnings(old(self).bound_locals(), t.components@),
                    decreases n - k,
                {
                    let ghost before = out.printed@.map_values(|l: String| l@);
                    let ghost cs = t.components@.take(k + 1);
                    assert(cs.drop_last() =~= t.components@.take(k as int));
                    assert(cs.last() == t.components@[k as int]);
                    assert(forall|j: int| 0 <= j < cs.len() - 1 ==> cs[j] == t.components@[j]);
                    match &t.components[k] {
                        Some(x) => match x {
                            Expression::Identifier(_) => {},
                            Expression::IndexAccess(_) | Expression::IndexRangeAccess(_) | Expression::MemberAccess(_) => {
                                if let Some(Expression::Identifier(i)) = root_expression(x) {
                                    if self.is_bound(i.referenced_declaration) {
                                        self.makes_post_external_call_assignment = true;
                                        proof {
                                            assert(component_writes_through(old(self).bound_locals(), t.components@[k as int]));
                                            lemma_tuple_warnings_stop(old(self).bound_locals(), t.components@, k as int, n as int);
                                            assert(t.components@.take(n as int) =~= t.components@);
                                        }
                                        return;
                                    }
                                }
                                assert(before + Seq::<Seq<char>>::empty() =~= before);
                            },
                            _ => {
                                out.print(String::from_str("\tWARNING: unhandled assignment in tuple"));
                                assert(out.printed@.map_values(|l: String| l@) =~= before.push("\tWARNING: unhandled assignment in tuple"@));
                            },
                        },
                        None => {},
                    }
                    k = k + 1;
                }
                assert(t.components@.take(n as int) =~= t.components@);
                assert(!writes_through_binding(old(self).bound_locals(), *a.left_hand_side));
                assert(!(exists|j: int| 0 <= j < t.components@.len() && component_writes_through(old(self).bound_locals(), #[trigger] t.components@[j])));
            },
            Expression::Identifier(_) => {},
            _ => {
                out.print(String::from_str("\tWARNING: unhandled assignment"));
                assert(out.printed@.map_values(|l: String| l@) =~= start + seq!["\tWARNING: unhandled assignment"@]);
            },
        }
    }
}

} // verus!
