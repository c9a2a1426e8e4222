//! The grouping of a source unit's `pragma solidity` and `pragma abicoder`
//! directives that the check for an unnecessary `pragma abicoder v2` reads:
//! each group holds the version literals and the abicoder literals seen
//! since the last group, and closes at the next pragma of a kind already
//! seen, or at the end of the unit.
use vstd::prelude::*;
use crate::ast::{PragmaDirective, SourceUnit, SourceUnitNode};
use crate::render::{source_line, spec_source_line, AnalysisError};
use crate::text::str_eq;

verus! {

/// One group: the line of the pragma that closed it (none for the group the
/// end of the unit closes), and the literals after `solidity` and after
/// `abicoder` in the pragmas it holds.
pub struct PragmaGroup {
    pub line: Option<usize>,
    pub solidity: Vec<String>,
    pub abicoder: Vec<String>,
}

pub type PragmaGroupView = (Option<usize>, Seq<Seq<char>>, Seq<Seq<char>>);

impl View for PragmaGroup {
    type V = PragmaGroupView;

    open spec fn view(&self) -> PragmaGroupView {
        (self.line, self.solidity@.map_values(|s: String| s@), self.abicoder@.map_values(|s: String| s@))
    }
}

/// The literals of a pragma after its first.
pub open spec fn pragma_tail(p: PragmaDirective) -> Seq<Seq<char>> {
    p.literals@.map_values(|s: String| s@).subrange(if p.literals@.len() > 0 { 1 } else { 0 }, p.literals@.len() as int)
}

/// The state of the grouping: the groups closed, and the literals of the
/// open group.
pub type GroupState = (Seq<PragmaGroupView>, Seq<Seq<char>>, Seq<Seq<char>>);

/// The grouping after the nodes `nodes` of `unit`, or the error finding the
/// line of a pragma that closes a group.
pub open spec fn group_pragmas(unit: SourceUnit, nodes: Seq<SourceUnitNode>) -> Result<GroupState, AnalysisError>
    decreases nodes.len(),
{
    if nodes.len() == 0 {
        Ok((Seq::empty(), Seq::empty(), Seq::empty()))
    } else {
        match group_pragmas(unit, nodes.drop_last()) {
            Err(e) => Err(e),
            Ok((groups, sol, abi)) => match nodes.last() {
                SourceUnitNode::PragmaDirective(p) => if p.literals@.len() > 0 && p.literals@[0]@ == "solidity"@ {
                    if sol.len() > 0 {
                        match spec_source_line(unit, p.info.src@) {
                            Ok(l) => Ok((groups.push((Some(l as usize), sol, abi)), pragma_tail(p), Seq::empty())),
                            Err(e) => Err(e),
                        }
                    } else {
                        Ok((groups, sol + pragma_tail(p), abi))
                    }
                } else if p.literals@.len() > 0 && p.literals@[0]@ == "abicoder"@ {
                    if abi.len() > 0 {
                        match spec_source_line(unit, p.info.src@) {
                            Ok(l) => Ok((groups.push((Some(l as usize), sol, abi)), Seq::empty(), pragma_tail(p))),
                            Err(e) => Err(e),
                        }
                    } else {
                        Ok((groups, sol, abi + pragma_tail(p)))
                    }
                } else {
                    Ok((groups, sol, abi))
                },
                _ => Ok((groups, sol, abi)),
            },
        }
    }
}

/// The groups of a source unit: those the pragmas close, then the one the
/// end of the unit closes.
pub open spec fn pragma_groups_of(unit: SourceUnit) -> Result<Seq<PragmaGroupView>, AnalysisError> {
    match group_pragmas(unit, unit.nodes@) {
        Ok((groups, sol, abi)) => Ok(groups.push((None, sol, abi))),
        Err(e) => Err(e),
    }
}

fn tail_strings(p: &PragmaDirective, into: &mut Vec<String>)
    ensures
        final(into)@.map_values(|s: String| s@) == old(into)@.map_values(|s: String| s@) + pragma_tail(*p),
{
    let ghost start = into@.map_values(|s: String| s@);
    let ghost lits = p.literals@.map_values(|s: String| s@);
    let mut k: usize = 1;
    if p.literals.len() == 0 {
        assert(pragma_tail(*p) =~= Seq::<Seq<char>>::empty());
        assert(into@.map_values(|s: String| s@) =~= start + pragma_tail(*p));
        return;
    }
    assert(lits.subrange(1, lits.len() as int).take(0) =~= Seq::<Seq<char>>::empty());
    assert(start + Seq::<Seq<char>>::empty() =~= start);
    while k < p.literals.len()
        invariant
            1 <= k <= p.literals@.len(),
            lits == p.literals@.map_values(|s: String| s@),
            into@.map_values(|s: String| s@) == start + lits.subrange(1, lits.len() as int).take(k - 1),
        decreases p.literals@.len() - k,
    {
        let ghost before = into@;
        let c = p.literals[k].clone();
        assert(c@ == p.literals@[k as int]@);
        into.push(c);
        assert(lits[k as int] == p.literals@[k as int]@);
        assert(into@.map_values(|s: String| s@) =~= before.map_values(|s: String| s@).push(lits[k as int]));
        assert(lits.subrange(1, lits.len() as int).take(k as int) =~= lits.subrange(1, lits.len() as int).take(k - 1).push(lits[k as int]));
        assert(into@.map_values(|s: String| s@) =~= start + lits.subrange(1, lits.len() as int).take(k as int));
        k = k + 1;
    }
    assert(lits.subrange(1, lits.len() as int).take(k - 1) =~= pragma_tail(*p));
}

fn to_views(v: &Vec<String>) -> (r: Vec<String>)
    ensures
        r@.map_values(|s: String| s@) == v@.map_values(|s: String| s@),
{
    let mut r: Vec<String> = Vec::new();
    let mut k: usize = 0;
    while k < v.len()
        invariant
            k <= v@.len(),
            r@.map_values(|s: String| s@) == v@.map_values(|s: String| s@).take(k as int),
        decreases v@.len() - k,
    {
        let ghost before = r@;
        let c = v[k].clone();
        assert(c@ == v@[k as int]@);
        r.push(c);
        assert(r@.map_values(|s: String| s@) =~= before.map_values(|s: String| s@).push(v@[k as int]@));
        assert(r@.map_values(|s: String| s@) =~= v@.map_values(|s: String| s@).take(k + 1));
        k = k + 1;
    }
    assert(v@.map_values(|s: String| s@).take(v@.len() as int) =~= v@.map_values(|s: String| s@));
    r
}

/// The pragma groups of a source unit, in order.
pub fn pragma_groups(unit: &SourceUnit) -> (r: Result<Vec<PragmaGroup>, AnalysisError>)
    ensures
        match r {
            Ok(g) => pragma_groups_of(*unit) == Ok::<Seq<PragmaGroupView>, AnalysisError>(g@.map_values(|x: PragmaGroup| x@)),
            Err(e) => pragma_groups_of(*unit) == Err::<Seq<PragmaGroupView>, AnalysisError>(e),
        },
{
    let mut groups: Vec<PragmaGroup> = Vec::new();
    let mut sol: Vec<String> = Vec::new();
    let mut abi: Vec<String> = Vec::new();
    let n = unit.nodes.len();
    let mut i: usize = 0;
    assert(unit.nodes@.take(0) =~= Seq::<SourceUnitNode>::empty());
    assert(groups@.map_values(|x: PragmaGroup| x@) =~= Seq::<PragmaGroupView>::empty());
    assert(sol@.map_values(|s: String| s@) =~= Seq::<Seq<char>>::empty());
    assert(abi@.map_values(|s: String| s@) =~= Seq::<Seq<char>>::empty());
    while i < n
        invariant
            n == unit.nodes@.len(),
            i <= n,
            group_pragmas(*unit, unit.nodes@.take(i as int)) == Ok::<GroupState, AnalysisError>(
                (groups@.map_values(|x: PragmaGroup| x@), sol@.map_values(|s: String| s@), abi@.map_values(|s: String| s@)),
            ),
        decreases n - i,
    {
        assert(unit.nodes@.take(i + 1).drop_last() =~= unit.nodes@.take(i as int));
        assert(unit.nodes@.take(i + 1).last() == unit.nodes@[i as int]);
        let ghost gv = groups@.map_values(|x: PragmaGroup| x@);
        let ghost sv = sol@.map_values(|s: String| s@);
        let ghost av = abi@.map_values(|s: String| s@);
        if let SourceUnitNode::PragmaDirective(p) = &unit.nodes[i] {
            let first_is = |name: &str| -> (b: bool)
                ensures
                    b == (p.literals@.len() > 0 && p.literals@[0]@ == name@),
                {
                    p.literals.len() > 0 && str_eq(p.literals[0].as_str(), name)
                };
            if first_is("solidity") {
                if sol.len() > 0 {
                    let line = match source_line(unit, p.info.src.as_str()) {
                        Ok(l) => l,
                        Err(e) => {
                            proof { lemma_group_error_stays(*unit, unit.nodes@, i + 1); }
                            return Err(e);
                        },
                    };
                    let g = PragmaGroup { line: Some(line), solidity: to_views(&sol), abicoder: to_views(&abi) };
                    groups.push(g);
                    assert(groups@.map_values(|x: PragmaGroup| x@) =~= gv.push((Some(line), sv, av)));
                    sol = Vec::new();
                    abi = Vec::new();
                    tail_strings(p, &mut sol);
                    assert(sol@.map_values(|s: String| s@) =~= Seq::<Seq<char>>::empty() + pragma_tail(*p));
                    assert(abi@.map_values(|s: String| s@) =~= Seq::<Seq<char>>::empty());
                } else {
                    tail_strings(p, &mut sol);
                }
            } else if first_is("abicoder") {
                if abi.len() > 0 {
                    let line = match source_line(unit, p.info.src.as_str()) {
                        Ok(l) => l,
                        Err(e) => {
                            proof { lemma_group_error_stays(*unit, unit.nodes@, i + 1); }
                            return Err(e);
                        },
                    };
                    let g = PragmaGroup { line: Some(line), solidity: to_views(&sol), abicoder: to_views(&abi) };
                    groups.push(g);
                    assert(groups@.map_values(|x: PragmaGroup| x@) =~= gv.push((Some(line), sv, av)));
                    sol = Vec::new();
                    abi = Vec::new();
                    tail_strings(p, &mut abi);
                    assert(abi@.map_values(|s: String| s@) =~= Seq::<Seq<char>>::empty() + pragma_tail(*p));
                    assert(sol@.map_values(|s: String| s@) =~= Seq::<Seq<char>>::empty());
                } else {
                    tail_strings(p, &mut abi);
                }
            }
        }
        i = i + 1;
    }
    assert(unit.nodes@.take(n as int) =~= unit.nodes@);
    let ghost gv = groups@.map_values(|x: PragmaGroup| x@);
    let last = PragmaGroup { line: None, solidity: sol, abicoder: abi };
    groups.push(last);
    assert(groups@.map_values(|x: PragmaGroup| x@) =~= gv.push(last@));
    Ok(groups)
}

proof fn lemma_group_error_stays(unit: SourceUnit, nodes: Seq<SourceUnitNode>, k: int)
    requires
        0 <= k <= nodes.len(),
        group_pragmas(unit, nodes.take(k)) is Err,
    ensures
        group_pragmas(unit, nodes) == group_pragmas(unit, nodes.take(k)),
    decreases nodes.len() - k,
{
    if k < nodes.len() {
        assert(nodes.take(k + 1).drop_last() =~= nodes.take(k));
        lemma_group_error_stays(unit, nodes, k + 1);
    } else {
        assert(nodes.take(k) =~= nodes);
    }
}

} // verus!
