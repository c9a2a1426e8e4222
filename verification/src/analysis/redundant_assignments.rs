//! Tuple assignments that assign the same place twice.
use vstd::prelude::*;
use crate::analysis::{unit_path, DefCtx, Output};
use crate::ast::{Assignment, Expression, NodeId};
use crate::query::{ids_eq, referenced_declarations, refs};
use crate::render::{definition_node_location, location_text, node_text, spec_node_text, spec_source_line, AnalysisError};

verus! {

/// The declarations a tuple component refers to (none for an empty component).
pub open spec fn component_refs(c: Option<Expression>) -> Seq<NodeId> {
    match c {
        Some(e) => refs(e),
        None => Seq::empty(),
    }
}

/// Component `i` repeats an earlier component: it refers to declarations,
/// and to the same ones as some component before it.
pub open spec fn repeats_earlier(cs: Seq<Option<Expression>>, i: int) -> bool {
    component_refs(cs[i]).len() > 0 && exists|j: int| 0 <= j < i && #[trigger] component_refs(cs[j])
        == component_refs(cs[i])
}

/// The positions of the components of a tuple that repeat an earlier one.
pub open spec fn repeated_positions(cs: Seq<Option<Expression>>) -> Seq<int>
    decreases cs.len(),
{
    if cs.len() == 0 {
        Seq::empty()
    } else {
        repeated_positions(cs.drop_last()) + if repeats_earlier(cs, cs.len() - 1) {
            seq![cs.len() - 1]
        } else {
            Seq::empty()
        }
    }
}

proof fn lemma_repeats_earlier_prefix(cs: Seq<Option<Expression>>, k: int, i: int)
    requires
        0 <= i < k <= cs.len(),
    ensures
        repeats_earlier(cs.take(k), i) == repeats_earlier(cs, i),
{
    assert(cs.take(k)[i] == cs[i]);
    if repeats_earlier(cs, i) {
        let j = choose|j: int| 0 <= j < i && #[trigger] component_refs(cs[j]) == component_refs(cs[i]);
        assert(cs.take(k)[j] == cs[j]);
    }
    if repeats_earlier(cs.take(k), i) {
        let j = choose|j: int| 0 <= j < i && #[trigger] component_refs(cs.take(k)[j]) == component_refs(cs.take(k)[i]);
        assert(cs.take(k)[j] == cs[j]);
    }
}

/// How many components of the assignment's left-hand tuple repeat an
/// earlier one (none where the left-hand side is not a tuple).
pub open spec fn repeat_count(a: Assignment) -> nat {
    match *a.left_hand_side {
        Expression::TupleExpression(t) => repeated_positions(t.components@).len(),
        _ => 0,
    }
}

/// For a tuple on the left of an assignment, the positions of its components
/// that repeat an earlier one; none for any other left-hand side.
pub fn repeated_components(a: &Assignment) -> (r: Vec<usize>)
    ensures
        match *a.left_hand_side {
            Expression::TupleExpression(t) => r@.map_values(|i: usize| i as int) == repeated_positions(
                t.components@,
            ),
            _ => r@.len() == 0,
        },
{
    let mut r: Vec<usize> = Vec::new();
    let t = match &*a.left_hand_side {
        Expression::TupleExpression(t) => t,
        _ => return r,
    };
    let ghost cs = t.components@;
    let n = t.components.len();
    let mut seen: Vec<Vec<NodeId>> = Vec::new();
    let mut i: usize = 0;
    assert(cs.take(0) =~= Seq::<Option<Expression>>::empty());
    assert(r@.map_values(|i: usize| i as int) =~= Seq::<int>::empty());
    while i < n
        invariant
            cs == t.components@,
            n == cs.len(),
            i <= n,
            seen@.len() == i,
            forall|j: int| 0 <= j < i ==> (#[trigger] seen@[j])@ == component_refs(cs[j]),
            r@.map_values(|i: usize| i as int) == repeated_positions(cs.take(i as int)),
        decreases n - i,
    {
        let ids = match &t.components[i] {
            Some(e) => referenced_declarations(e),
            None => Vec::new(),
        };
        assert(ids@ == component_refs(cs[i as int]));
        let mut dup = false;
        if ids.len() > 0 {
            let mut j: usize = 0;
            while j < i && !ids_eq(&seen[j], &ids)
                invariant
                    i < n,
                    seen@.len() == i,
                    j <= i,
                    ids@ == component_refs(cs[i as int]),
                    forall|k: int| 0 <= k < i ==> (#[trigger] seen@[k])@ == component_refs(cs[k]),
                    forall|k: int| 0 <= k < j ==> component_refs(cs[k]) != ids@,
                decreases i - j,
            {
                j = j + 1;
            }
            dup = j < i;
            proof {
                if dup {
                    assert(seen@[j as int]@ == ids@);
                    assert(component_refs(cs[j as int]) == component_refs(cs[i as int]));
                    assert(repeats_earlier(cs, i as int));
                } else {
                    assert(!repeats_earlier(cs, i as int));
                }
            }
        }
        proof {
            lemma_repeats_earlier_prefix(cs, i + 1, i as int);
            assert(cs.take(i + 1).drop_last() =~= cs.take(i as int));
            assert(dup == repeats_earlier(cs, i as int));
        }
        let ghost before = r@.map_values(|i: usize| i as int);
        if dup {
            r.push(i);
            assert(r@.map_values(|i: usize| i as int) =~= before.push(i as int));
        }
        assert(r@.map_values(|i: usize| i as int) =~= repeated_positions(cs.take(i + 1)));
        seen.push(ids);
        i = i + 1;
    }
    assert(cs.take(n as int) =~= cs);
    r
}

pub struct RedundantAssignmentsVisitor {}

impl RedundantAssignmentsVisitor {
    pub fn new() -> Self {
        RedundantAssignmentsVisitor {}
    }

    /// Reports the assignment once for each repeated component, at the line
    /// where it starts; fails, reporting nothing, where that line cannot be found.
    pub fn visit_assignment(&mut self, ctx: &DefCtx, a: &Assignment, out: &mut Output) -> (r: Result<(), AnalysisError>)
        requires
            old(out).wf(),
        ensures
            final(out).wf(),
            old(out).extends(*final(out)),
            final(out).printed == old(out).printed,
            ({
                let n = repeat_count(*a);
                let path = unit_path(*ctx.unit);
                let text = location_text(*ctx.contract, *ctx.node) + " contains a redundant assignment: `"@
                    + spec_node_text(*ctx.unit, a.info.src@) + "`"@;
                &&& n == 0 ==> r is Ok && final(out).report == old(out).report
                &&& n > 0 ==> (r is Ok <==> spec_source_line(*ctx.unit, a.info.src@) is Ok)
                &&& r is Err ==> final(out).report == old(out).report
                &&& n > 0 && r is Ok ==> final(out).report.entries_of(path) == old(out).report.entries_of(path) + Seq::new(
                    n,
                    |i: int| (Some(spec_source_line(*ctx.unit, a.info.src@)->Ok_0 as usize), text),
                )
                &&& forall|p: Seq<char>| p != path ==> final(out).report.entries_of(p) == old(out).report.entries_of(p)
            }),
    {
        let positions = repeated_components(a);
        let ghost path = unit_path(*ctx.unit);
        let ghost text = location_text(*ctx.contract, *ctx.node) + " contains a redundant assignment: `"@
            + spec_node_text(*ctx.unit, a.info.src@) + "`"@;
        let ghost start = old(out).report.entries_of(path);
        proof { Output::lemma_extends_refl(*out); }
        let mut k: usize = 0;
        while k < positions.len()
            invariant
                k <= positions@.len(),
                positions@.len() == repeat_count(*a),
                out.wf(),
                old(out).extends(*out),
                out.printed == old(out).printed,
                path == unit_path(*ctx.unit),
                text == location_text(*ctx.contract, *ctx.node) + " contains a redundant assignment: `"@
                    + spec_node_text(*ctx.unit, a.info.src@) + "`"@,
                start == old(out).report.entries_of(path),
                k == 0 ==> out.report == old(out).report,
                k > 0 ==> spec_source_line(*ctx.unit, a.info.src@) is Ok,
                k > 0 ==> out.report.entries_of(path) == start + Seq::new(
                    k as nat,
                    |i: int| (Some(spec_source_line(*ctx.unit, a.info.src@)->Ok_0 as usize), text),
                ),
                forall|p: Seq<char>| p != path ==> out.report.entries_of(p) == old(out).report.entries_of(p),
            decreases positions@.len() - k,
        {
            let msg = definition_node_location(ctx.contract, ctx.node).concat(" contains a redundant assignment: `").concat(
                node_text(ctx.unit, a.info.src.as_str()).as_str(),
            ).concat("`");
            let ghost before = *out;
            let r = out.add_at(ctx.unit, a.info.src.as_str(), msg);
            proof { Output::lemma_extends_trans(*old(out), before, *out); }
            if r.is_err() {
                assert(k == 0);
                return r;
            }
            proof {
                let e = (Some(spec_source_line(*ctx.unit, a.info.src@)->Ok_0 as usize), text);
                if k == 0 {
                    assert(out.report.entries_of(path) =~= start + Seq::new(1, |i: int| e));
                } else {
                    assert(start + Seq::new((k + 1) as nat, |i: int| e) =~= (start + Seq::new(k as nat, |i: int| e)).push(e));
                }
            }
            k = k + 1;
        }
        Ok(())
    }
}

} // verus!
