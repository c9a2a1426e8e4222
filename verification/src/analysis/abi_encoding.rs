//! `abi.encodePacked` calls with several arguments of which one is a
//! dynamically sized array: their encodings can collide.
use vstd::prelude::*;
use crate::analysis::{printed_at_if, DefCtx, Output};
use crate::ast::{Expression, FunctionCall, NodeId, TypeName, VariableDeclaration};
use crate::query::{referenced_declarations, refs};
use crate::render::{definition_node_location, location_text, node_text, spec_node_text, AnalysisError};
use crate::text::str_eq;

verus! {

/// The call is `abi.encodePacked(...)`.
pub open spec fn is_encode_packed(call: FunctionCall) -> bool {
    *call.expression matches Expression::MemberAccess(m) && m.member_name@ == "encodePacked"@ && (
    *m.expression matches Expression::Identifier(i) && i.name@ == "abi"@)
}

/// A dynamically sized array type.
pub open spec fn is_dynamic_array(t: TypeName) -> bool {
    t matches TypeName::ArrayTypeName { length: None, .. }
}

pub struct AbiEncodingVisitor {
    /// For each declaration seen with a type, whether that type is a
    /// dynamically sized array; the first record of a declaration counts.
    pub declaration_types: Vec<(NodeId, bool)>,
}

impl AbiEncodingVisitor {
    pub fn new() -> (r: Self)
        ensures
            r.declaration_types@.len() == 0,
    {
        AbiEncodingVisitor { declaration_types: Vec::new() }
    }

    /// Whether the declaration `id` was recorded with a dynamically sized array type.
    pub open spec fn is_dynamic(&self, id: NodeId) -> bool {
        exists|k: int|
            0 <= k < self.declaration_types@.len() && (#[trigger] self.declaration_types@[k]).0 == id
                && self.declaration_types@[k].1 && forall|j: int| 0 <= j < k ==> self.declaration_types@[j].0 != id
    }

    /// Some argument refers to a declaration with a dynamically sized array type.
    pub open spec fn any_dynamic(&self, args: Seq<Expression>) -> bool {
        exists|a: int, j: int| 0 <= a < args.len() && 0 <= j < refs(args[a]).len() && #[trigger] self.is_dynamic(refs(args[a])[j])
    }

    fn find(&self, id: NodeId) -> (r: Option<usize>)
        ensures
            r matches Some(k) ==> k < self.declaration_types@.len() && self.declaration_types@[k as int].0 == id
                && forall|j: int| 0 <= j < k ==> self.declaration_types@[j].0 != id,
            r is None ==> forall|k: int| 0 <= k < self.declaration_types@.len() ==> self.declaration_types@[k].0 != id,
    {
        let mut k: usize = 0;
        while k < self.declaration_types.len()
            invariant
                k <= self.declaration_types@.len(),
                forall|j: int| 0 <= j < k ==> self.declaration_types@[j].0 != id,
            decreases self.declaration_types@.len() - k,
        {
            if self.declaration_types[k].0 == id {
                return Some(k);
            }
            k = k + 1;
        }
        None
    }

    fn dynamic(&self, id: NodeId) -> (r: bool)
        ensures
            r == self.is_dynamic(id),
    {
        match self.find(id) {
            Some(k) => {
                proof {
                    if self.is_dynamic(id) {
                        let j = choose|j: int|
                            0 <= j < self.declaration_types@.len() && (#[trigger] self.declaration_types@[j]).0 == id
                                && self.declaration_types@[j].1 && forall|i: int| 0 <= i < j ==> self.declaration_types@[i].0 != id;
                        assert(j == k);
                    }
                }
                self.declaration_types[k].1
            },
            None => false,
        }
    }

    /// `after` is `before` having seen the declaration `v`.
    pub open spec fn noted(before: Self, after: Self, v: VariableDeclaration) -> bool {
        match v.ty {
            Some(t) => {
                &&& before.declaration_types@.len() > 0 && (exists|k: int| 0 <= k < before.declaration_types@.len()
                    && before.declaration_types@[k].0 == v.info.id) ==> after.declaration_types == before.declaration_types
                &&& (forall|k: int| 0 <= k < before.declaration_types@.len() ==> before.declaration_types@[k].0 != v.info.id)
                    ==> after.declaration_types@ == before.declaration_types@.push((v.info.id, is_dynamic_array(t)))
            },
            None => after.declaration_types == before.declaration_types,
        }
    }

    /// A declaration seen for the first time with an array type that has no
    /// length (`T[]`) counts as dynamically sized afterwards; one whose array
    /// type has a length (`T[n]`), or whose type is not an array, does not.
    /// So an `abi.encodePacked` call passing it, among two or more arguments,
    /// can collide exactly in the first case.
    pub proof fn lemma_dynamic_arrays_noted(before: Self, after: Self, v: VariableDeclaration, args: Seq<Expression>, i: int)
        requires
            Self::noted(before, after, v),
            v.ty is Some,
            forall|k: int| 0 <= k < before.declaration_types@.len() ==> before.declaration_types@[k].0 != v.info.id,
        ensures
            (v.ty->Some_0 matches TypeName::ArrayTypeName { length: None, .. }) ==> after.is_dynamic(v.info.id),
            !(v.ty->Some_0 matches TypeName::ArrayTypeName { length: None, .. }) ==> !after.is_dynamic(v.info.id),
            (v.ty->Some_0 matches TypeName::ArrayTypeName { length: None, .. }) && 0 <= i < args.len() && (
            args[i] matches Expression::Identifier(x) && x.referenced_declaration == v.info.id) ==> after.any_dynamic(args),
    {
        let n = before.declaration_types@.len() as int;
        if v.ty->Some_0 matches TypeName::ArrayTypeName { length: None, .. } {
            assert(after.declaration_types@[n] == (v.info.id, true));
            assert(after.is_dynamic(v.info.id));
            if 0 <= i < args.len() && (args[i] matches Expression::Identifier(x) && x.referenced_declaration == v.info.id) {
                assert(refs(args[i])[0] == v.info.id);
                assert(after.is_dynamic(refs(args[i])[0]));
            }
        } else {
            if after.is_dynamic(v.info.id) {
                let k = choose|k: int|
                    0 <= k < after.declaration_types@.len() && (#[trigger] after.declaration_types@[k]).0 == v.info.id
                        && after.declaration_types@[k].1 && forall|j: int| 0 <= j < k ==> after.declaration_types@[j].0 != v.info.id;
                if k < n {
                    assert(after.declaration_types@[k] == before.declaration_types@[k]);
                }
            }
        }
    }

    /// Records the type of a declaration the first time it is seen with one.
    pub fn visit_variable_declaration(&mut self, v: &VariableDeclaration)
        ensures
            Self::noted(*old(self), *final(self), *v),
    {
        if let Some(t) = &v.ty {
            if self.find(v.info.id).is_none() {
                let dynamic = match t {
                    TypeName::ArrayTypeName { length: None, .. } => true,
                    _ => false,
                };
                self.declaration_types.push((v.info.id, dynamic));
            }
        }
    }

    fn any_argument_dynamic(&self, args: &Vec<Expression>) -> (r: bool)
        ensures
            r == self.any_dynamic(args@),
    {
        let mut a: usize = 0;
        while a < args.len()
            invariant
                a <= args@.len(),
                forall|x: int, j: int| 0 <= x < a && 0 <= j < refs(args@[x]).len() ==> !#[trigger] self.is_dynamic(refs(args@[x])[j]),
            decreases args@.len() - a,
        {
            let ids = referenced_declarations(&args[a]);
            let mut j: usize = 0;
            while j < ids.len()
                invariant
                    a < args@.len(),
                    ids@ == refs(args@[a as int]),
                    j <= ids@.len(),
                    forall|x: int, i: int| 0 <= x < a && 0 <= i < refs(args@[x]).len() ==> !#[trigger] self.is_dynamic(refs(args@[x])[i]),
                    forall|i: int| 0 <= i < j ==> !#[trigger] self.is_dynamic(ids@[i]),
                decreases ids@.len() - j,
            {
                if self.dynamic(ids[j]) {
                    assert(self.is_dynamic(refs(args@[a as int])[j as int]));
                    return true;
                }
                j = j + 1;
            }
            a = a + 1;
        }
        false
    }

    /// Prints an `abi.encodePacked` call with several arguments of which one
    /// is a dynamically sized array.
    pub fn visit_function_call(&mut self, ctx: &DefCtx, call: &FunctionCall, out: &mut Output) -> (r: Result<
        (),
        AnalysisError,
    >)
        requires
            old(out).wf(),
        ensures
            *final(self) == *old(self),
            final(out).wf(),
            old(out).extends(*final(out)),
            printed_at_if(
                *old(out),
                *final(out),
                *ctx.unit,
                call.info.src@,
                is_encode_packed(*call) && call.arguments@.len() >= 2 && old(self).any_dynamic(call.arguments@),
                location_text(*ctx.contract, *ctx.node) + " contains the potential for hash collisions: `"@
                    + spec_node_text(*ctx.unit, call.info.src@) + "`"@,
                r is Ok,
            ),
    {
        proof { Output::lemma_extends_refl(*out); }
        let packed = match &*call.expression {
            Expression::MemberAccess(m) => str_eq(m.member_name.as_str(), "encodePacked") && match &*m.expression {
                Expression::Identifier(i) => str_eq(i.name.as_str(), "abi"),
                _ => false,
            },
            _ => false,
        };
        if !packed || call.arguments.len() < 2 || !self.any_argument_dynamic(&call.arguments) {
            return Ok(());
        }
        let msg = definition_node_location(ctx.contract, ctx.node).concat(" contains the potential for hash collisions: `").concat(
            node_text(ctx.unit, call.info.src.as_str()).as_str(),
        ).concat("`");
        out.print_at(ctx.unit, call.info.src.as_str(), msg)
    }
}

} // verus!
