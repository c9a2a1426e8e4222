//! Functions that make raw address transfers, counted per function.
use vstd::prelude::*;
use crate::analysis::{DefCtx, Output};
use crate::analysis::secure_ether_transfer::{is_raw_transfer, spec_raw_transfer};
use crate::ast::{Expression, FunctionCall, FunctionCallOptions, FunctionDefinition, NodeId};
use crate::query::{definition_id, function_or_modifier_id};
use crate::render::{debug_visibility, debug_visibility_text, function_kind_str, function_kind_text, qualified, qualify};

verus! {

pub struct RawAddressTransferVisitor {
    /// For each function seen, the raw transfers found in it so far.
    pub functions_transfer: Vec<(NodeId, usize)>,
}

/// The line printed for a function that makes `count` raw transfers.
pub open spec fn transfer_line(contract: Seq<char>, f: FunctionDefinition, count: usize) -> Seq<char> {
    "\t"@ + debug_visibility_text(f.visibility) + " "@ + qualified(contract, f.name@) + " "@ + function_kind_text(f.kind)
        + " performs "@ + if count == 1 {
        "a raw address transfer"@
    } else {
        "raw address transfers"@
    }
}

impl RawAddressTransferVisitor {
    /// Each function is counted once.
    pub open spec fn wf(&self) -> bool {
        forall|i: int, j: int|
            0 <= i < j < self.functions_transfer@.len() ==> (#[trigger] self.functions_transfer@[i]).0
                != (#[trigger] self.functions_transfer@[j]).0
    }

    /// The raw transfers counted for the function `id`, where it was seen.
    pub open spec fn count_of(&self, id: NodeId) -> Option<usize> {
        if exists|k: int| 0 <= k < self.functions_transfer@.len() && (#[trigger] self.functions_transfer@[k]).0 == id {
            Some(
                self.functions_transfer@[choose|k: int|
                    0 <= k < self.functions_transfer@.len() && (#[trigger] self.functions_transfer@[k]).0 == id].1,
            )
        } else {
            None
        }
    }

    pub fn new() -> (r: Self)
        ensures
            r.wf(),
            forall|id: NodeId| r.count_of(id) is None,
    {
        RawAddressTransferVisitor { functions_transfer: Vec::new() }
    }

    fn find(&self, id: NodeId) -> (r: Option<usize>)
        requires
            self.wf(),
        ensures
            r matches Some(k) ==> k < self.functions_transfer@.len() && self.functions_transfer@[k as int].0 == id
                && self.count_of(id) == Some(self.functions_transfer@[k as int].1),
            r is None ==> self.count_of(id) is None,
    {
        let mut k: usize = 0;
        while k < self.functions_transfer.len()
            invariant
                self.wf(),
                k <= self.functions_transfer@.len(),
                forall|j: int| 0 <= j < k ==> self.functions_transfer@[j].0 != id,
            decreases self.functions_transfer@.len() - k,
        {
            if self.functions_transfer[k].0 == id {
                let ghost c = choose|j: int|
                    0 <= j < self.functions_transfer@.len() && (#[trigger] self.functions_transfer@[j]).0 == id;
                assert(self.functions_transfer@[k as int].0 == id);
                assert(c == k) by {
                    if c < k {
                        assert(self.functions_transfer@[c].0 == self.functions_transfer@[k as int].0);
                    } else if c > k {
                        assert(self.functions_transfer@[k as int].0 == self.functions_transfer@[c].0);
                    }
                }
                return Some(k);
            }
            k = k + 1;
        }
        None
    }

    /// Starts counting for a function not seen before.
    pub fn visit_function_definition(&mut self, f: &FunctionDefinition)
        requires
            old(self).wf(),
        ensures
            final(self).wf(),
            old(self).count_of(f.info.id) is None ==> final(self).count_of(f.info.id) == Some(0usize),
            forall|id: NodeId| id != f.info.id || old(self).count_of(id) is Some ==> final(self).count_of(id)
                == old(self).count_of(id),
    {
        if self.find(f.info.id).is_none() {
            let ghost prev = self.functions_transfer@;
            self.functions_transfer.push((f.info.id, 0));
            let ghost n = prev.len();
            assert(self.functions_transfer@[n as int].0 == f.info.id);
            assert forall|id: NodeId| id != f.info.id || old(self).count_of(id) is Some implies self.count_of(id)
                == old(self).count_of(id) by {
                if exists|k: int| 0 <= k < prev.len() && (#[trigger] prev[k]).0 == id {
                    let k = choose|k: int| 0 <= k < prev.len() && (#[trigger] prev[k]).0 == id;
                    assert(self.functions_transfer@[k] == prev[k]);
                    let c = choose|j: int|
                        0 <= j < self.functions_transfer@.len() && (#[trigger] self.functions_transfer@[j]).0 == id;
                    assert(c < n) by {
                        if c == n {
                            assert(prev[k].0 == f.info.id);
                        }
                    }
                    assert(self.functions_transfer@[c] == prev[c]);
                    if c != k {
                        assert(prev[c].0 == prev[k].0);
                    }
                } else {
                    assert forall|k: int| 0 <= k < self.functions_transfer@.len() implies (
                    #[trigger] self.functions_transfer@[k]).0 != id by {
                        if k < n {
                            assert(self.functions_transfer@[k] == prev[k]);
                        }
                    }
                }
            }
            assert(self.count_of(f.info.id) == Some(0usize)) by {
                let c = choose|j: int|
                    0 <= j < self.functions_transfer@.len() && (#[trigger] self.functions_transfer@[j]).0 == f.info.id;
                if c != n {
                    assert(self.functions_transfer@[c] == prev[c]);
                }
            }
        }
    }

    /// Prints how many raw transfers the function made, where it made any.
    pub fn leave_function_definition(&mut self, ctx: &DefCtx, f: &FunctionDefinition, out: &mut Output)
        requires
            old(out).wf(),
            old(self).wf(),
        ensures
            final(out).wf(),
            old(out).extends(*final(out)),
            final(out).report == old(out).report,
            *final(self) == *old(self),
            final(out).printed@.map_values(|s: String| s@) == match old(self).count_of(f.info.id) {
                Some(c) => if c > 0 {
                    old(out).printed@.map_values(|s: String| s@).push(transfer_line(ctx.contract.name@, *f, c))
                } else {
                    old(out).printed@.map_values(|s: String| s@)
                },
                None => old(out).printed@.map_values(|s: String| s@),
            },
    {
        proof { Output::lemma_extends_refl(*out); }
        if let Some(k) = self.find(f.info.id) {
            let count = self.functions_transfer[k].1;
            if count > 0 {
                let line = String::from_str("\t").concat(debug_visibility(f.visibility)).concat(" ").concat(
                    qualify(&ctx.contract.name, &f.name).as_str(),
                ).concat(" ").concat(function_kind_str(f.kind)).concat(" performs ").concat(
                    if count == 1 {
                        "a raw address transfer"
                    } else {
                        "raw address transfers"
                    },
                );
                assert(line@ =~= transfer_line(ctx.contract.name@, *f, count));
                let ghost before = out.printed@;
                out.print(line);
                assert(out.printed@.map_values(|s: String| s@) =~= before.map_values(|s: String| s@).push(
                    transfer_line(ctx.contract.name@, *f, count),
                ));
            }
        }
    }

    /// Counts a raw transfer made by the function or modifier being walked.
    /// The function has been seen, and its count can grow.
    fn count(&mut self, ctx: &DefCtx, callee: &Expression)
        requires
            old(self).wf(),
            function_or_modifier_requirement(*old(self), *ctx, *callee),
        ensures
            final(self).wf(),
            counted(*old(self), *final(self), *ctx, *callee),
    {
        if let Some(id) = function_or_modifier_id(ctx.node) {
            if is_raw_transfer(callee) {
                let k = self.find(id).unwrap();
                let (a, c) = self.functions_transfer[k];
                let ghost prev = self.functions_transfer@;
                self.functions_transfer.set(k, (a, c + 1));
                assert forall|x: NodeId| #[trigger] self.count_of(x) == if x == id {
                    Some((c + 1) as usize)
                } else {
                    old(self).count_of(x)
                } by {
                    if exists|j: int| 0 <= j < prev.len() && (#[trigger] prev[j]).0 == x {
                        let j = choose|j: int| 0 <= j < prev.len() && (#[trigger] prev[j]).0 == x;
                        assert(self.functions_transfer@[j].0 == x);
                        let c1 = choose|i: int|
                            0 <= i < self.functions_transfer@.len() && (#[trigger] self.functions_transfer@[i]).0 == x;
                        let c0 = choose|i: int| 0 <= i < prev.len() && (#[trigger] prev[i]).0 == x;
                        assert(self.functions_transfer@[c1].0 == prev[c1].0);
                        if c1 != c0 {
                            assert(prev[c1].0 == prev[c0].0);
                        }
                    } else {
                        assert forall|i: int| 0 <= i < self.functions_transfer@.len() implies (
                        #[trigger] self.functions_transfer@[i]).0 != x by {
                            assert(self.functions_transfer@[i].0 == prev[i].0);
                        }
                    }
                }
                assert forall|i: int, j: int|
                    0 <= i < j < self.functions_transfer@.len() implies (#[trigger] self.functions_transfer@[i]).0
                    != (#[trigger] self.functions_transfer@[j]).0 by {
                    assert(self.functions_transfer@[i].0 == prev[i].0);
                    assert(self.functions_transfer@[j].0 == prev[j].0);
                }
            }
        }
    }

    /// Counts a call, of a function or modifier, to `transfer` or `send`
    /// on an address.
    pub fn visit_function_call(&mut self, ctx: &DefCtx, call: &FunctionCall)
        requires
            old(self).wf(),
            function_or_modifier_requirement(*old(self), *ctx, *call.expression),
        ensures
            final(self).wf(),
            counted(*old(self), *final(self), *ctx, *call.expression),
    {
        self.count(ctx, &call.expression);
    }

    /// Counts a call with options, of a function or modifier, to `transfer`
    /// or `send` on an address.
    pub fn visit_function_call_options(&mut self, ctx: &DefCtx, call: &FunctionCallOptions)
        requires
            old(self).wf(),
            function_or_modifier_requirement(*old(self), *ctx, *call.expression),
        ensures
            final(self).wf(),
            counted(*old(self), *final(self), *ctx, *call.expression),
    {
        self.count(ctx, &call.expression);
    }
}

/// A raw transfer in a function or modifier is counted only for one seen
/// before, whose count has room to grow.
pub open spec fn function_or_modifier_requirement(v: RawAddressTransferVisitor, ctx: DefCtx, callee: Expression) -> bool {
    match definition_id(*ctx.node) {
        Some(id) => spec_raw_transfer(callee) ==> (v.count_of(id) matches Some(c) && c < usize::MAX),
        None => true,
    }
}

/// `after` counts one more raw transfer than `before` for the function or
/// modifier walked where `callee` is one, and is `before` otherwise.
pub open spec fn counted(before: RawAddressTransferVisitor, after: RawAddressTransferVisitor, ctx: DefCtx, callee: Expression) -> bool {
    match definition_id(*ctx.node) {
        Some(id) => if spec_raw_transfer(callee) {
            forall|x: NodeId| #[trigger] after.count_of(x) == if x == id {
                Some((before.count_of(id)->Some_0 + 1) as usize)
            } else {
                before.count_of(x)
            }
        } else {
            after == before
        },
        None => after == before,
    }
}

} // verus!
