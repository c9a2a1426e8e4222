//! Calls of `ERC20.transfer`, `transferFrom` and `approve` where `SafeERC20`
//! has safer counterparts.
use vstd::prelude::*;
use crate::analysis::{only_under, unit_path, DefCtx, Output};
use crate::ast::{ContractDefinition, ContractDefinitionNode, FunctionCall, NodeId, SourceUnit};
use crate::query::{find_function_and_contract, first_function, referenced_declarations, refs};
use crate::render::{definition_node_location, location_text, spec_source_line, AnalysisError};
use crate::text::{ascii_lower, eq_ascii_lowercase, str_eq};

verus! {

/// Whether a contract name, lower-cased, names an ERC-20 interface.
pub open spec fn is_erc20_name(name: Seq<char>) -> bool {
    let l = name.map_values(|c: char| ascii_lower(c));
    l == "erc20"@ || l == "ierc20"@ || l == "erc20interface"@
}

pub fn is_erc20_contract_name(name: &str) -> (r: bool)
    ensures
        r == is_erc20_name(name@),
{
    eq_ascii_lowercase(name, "erc20") || eq_ascii_lowercase(name, "ierc20") || eq_ascii_lowercase(
        name,
        "erc20interface",
    )
}

/// The `SafeERC20` counterpart of an ERC-20 function name.
pub open spec fn spec_safe_counterpart(name: Seq<char>) -> Option<Seq<char>> {
    if name == "transfer"@ {
        Some("safeTransfer"@)
    } else if name == "transferFrom"@ {
        Some("safeTransferFrom"@)
    } else if name == "approve"@ {
        Some("safeApprove"@)
    } else {
        None
    }
}

pub fn safe_counterpart(name: &str) -> (r: Option<&'static str>)
    ensures
        match r {
            Some(s) => spec_safe_counterpart(name@) == Some(s@),
            None => spec_safe_counterpart(name@) is None,
        },
{
    if str_eq(name, "transfer") {
        Some("safeTransfer")
    } else if str_eq(name, "transferFrom") {
        Some("safeTransferFrom")
    } else if str_eq(name, "approve") {
        Some("safeApprove")
    } else {
        None
    }
}

/// The findings for the functions `ids` refers to, in order, and whether
/// the scan stopped at a function not defined by an ERC-20 contract.
pub open spec fn erc20_scan(
    units: Seq<SourceUnit>,
    c: ContractDefinition,
    node: ContractDefinitionNode,
    ids: Seq<NodeId>,
) -> (Seq<Seq<char>>, bool)
    decreases ids.len(),
{
    if ids.len() == 0 {
        (Seq::empty(), false)
    } else {
        let prev = erc20_scan(units, c, node, ids.drop_last());
        if prev.1 {
            prev
        } else {
            match first_function(units, ids.last()) {
                Some(p) => if !is_erc20_name(p.0.name@) {
                    (prev.0, true)
                } else {
                    match spec_safe_counterpart(p.1.name@) {
                        Some(safe) => (
                            prev.0.push(
                                location_text(c, node) + " uses `ERC20."@ + p.1.name@ + "` instead of `SafeERC20."@ + safe
                                    + "`"@,
                            ),
                            false,
                        ),
                        None => prev,
                    }
                },
                None => prev,
            }
        }
    }
}

/// The entries filed for the findings `ts` at the line `l`.
pub open spec fn entries_at(ts: Seq<Seq<char>>, l: int) -> Seq<(Option<usize>, Seq<char>)> {
    ts.map_values(|t: Seq<char>| (Some(l as usize), t))
}

pub struct SafeERC20FunctionsVisitor {}

impl SafeERC20FunctionsVisitor {
    pub fn new() -> Self {
        SafeERC20FunctionsVisitor {}
    }

    /// For each function the callee refers to: stops at the first that is not
    /// defined by an ERC-20 contract, and reports each that has a `SafeERC20`
    /// counterpart.
    pub fn visit_function_call(&mut self, ctx: &DefCtx, call: &FunctionCall, out: &mut Output) -> (r: Result<(), AnalysisError>)
        requires
            old(out).wf(),
        ensures
            final(out).wf(),
            old(out).extends(*final(out)),
            final(out).printed == old(out).printed,
            only_under(*old(out), *final(out), unit_path(*ctx.unit)),
            ({
                let ts = erc20_scan(ctx.units@, *ctx.contract, *ctx.node, refs(*call.expression)).0;
                let path = unit_path(*ctx.unit);
                if ctx.contract.name@ == "SafeERC20"@ || ts.len() == 0 {
                    r is Ok && final(out).report == old(out).report
                } else {
                    &&& r is Ok <==> spec_source_line(*ctx.unit, call.info.src@) is Ok
                    &&& r is Err ==> final(out).report == old(out).report
                    &&& r is Ok ==> final(out).report.entries_of(path) == old(out).report.entries_of(path) + entries_at(
                        ts,
                        spec_source_line(*ctx.unit, call.info.src@)->Ok_0,
                    )
                }
            }),
    {
        proof { Output::lemma_extends_refl(*out); }
        proof { reveal_strlit("SafeERC20"); }
        if str_eq(ctx.contract.name.as_str(), "SafeERC20") {
            return Ok(());
        }
        let ids = referenced_declarations(&call.expression);
        let ghost path = unit_path(*ctx.unit);
        let ghost start = old(out).report.entries_of(path);
        let n = ids.len();
        let mut i: usize = 0;
        assert(ids@.take(0) =~= Seq::<NodeId>::empty());
        while i < n
            invariant
                n == ids@.len(),
                ids@ == refs(*call.expression),
                i <= n,
                out.wf(),
                old(out).extends(*out),
                out.printed == old(out).printed,
                only_under(*old(out), *out, unit_path(*ctx.unit)),
                path == unit_path(*ctx.unit),
                start == old(out).report.entries_of(path),
                ctx.contract.name@ != "SafeERC20"@,
                !erc20_scan(ctx.units@, *ctx.contract, *ctx.node, ids@.take(i as int)).1,
                erc20_scan(ctx.units@, *ctx.contract, *ctx.node, ids@.take(i as int)).0.len() == 0 ==> out.report
                    == old(out).report,
                erc20_scan(ctx.units@, *ctx.contract, *ctx.node, ids@.take(i as int)).0.len() > 0 ==> spec_source_line(
                    *ctx.unit,
                    call.info.src@,
                ) is Ok && out.report.entries_of(path) == start + entries_at(
                    erc20_scan(ctx.units@, *ctx.contract, *ctx.node, ids@.take(i as int)).0,
                    spec_source_line(*ctx.unit, call.info.src@)->Ok_0,
                ),
            decreases n - i,
        {
            let ghost pre = erc20_scan(ctx.units@, *ctx.contract, *ctx.node, ids@.take(i as int)).0;
            assert(ids@.take(i + 1).drop_last() =~= ids@.take(i as int));
            assert(ids@.take(i + 1).last() == ids@[i as int]);
            if let Some((c, f)) = find_function_and_contract(ctx.units, ids[i]) {
                if !is_erc20_contract_name(c.name.as_str()) {
                    proof {
                        assert(first_function(ctx.units@, ids@[i as int]) == Some((*c, *f)));
                        assert(erc20_scan(ctx.units@, *ctx.contract, *ctx.node, ids@.take(i + 1)) == (pre, true));
                        lemma_scan_stops(ctx.units@, *ctx.contract, *ctx.node, ids@, i as int + 1);
                    }
                    return Ok(());
                }
                if let Some(safe) = safe_counterpart(f.name.as_str()) {
                    let msg = definition_node_location(ctx.contract, ctx.node).concat(" uses `ERC20.").concat(
                        f.name.as_str(),
                    ).concat("` instead of `SafeERC20.").concat(safe).concat("`");
                    let ghost before = *out;
                    let r = out.add_at(ctx.unit, call.info.src.as_str(), msg);
                    proof { Output::lemma_extends_trans(*old(out), before, *out); }
                    if r.is_err() {
                        proof {
                            assert(first_function(ctx.units@, ids@[i as int]) == Some((*c, *f)));
                            assert(erc20_scan(ctx.units@, *ctx.contract, *ctx.node, ids@.take(i + 1)).0 == pre.push(msg@));
                            lemma_scan_grows(ctx.units@, *ctx.contract, *ctx.node, ids@, i as int + 1);
                            assert(pre.len() == 0);
                        }
                        return r;
                    }
                    proof {
                        let l = spec_source_line(*ctx.unit, call.info.src@)->Ok_0;
                        let now = erc20_scan(ctx.units@, *ctx.contract, *ctx.node, ids@.take(i + 1)).0;
                        assert(now == pre.push(msg@));
                        assert(entries_at(now, l) =~= entries_at(pre, l).push((Some(l as usize), msg@)));
                        if pre.len() == 0 {
                            assert(out.report.entries_of(path) =~= start + entries_at(now, l));
                        } else {
                            assert(start + entries_at(now, l) =~= (start + entries_at(pre, l)).push((Some(l as usize), msg@)));
                        }
                    }
                }
            }
            i = i + 1;
        }
        assert(ids@.take(n as int) =~= ids@);
        Ok(())
    }
}

/// Once the scan of a prefix has stopped, the scan of every longer prefix
/// has stopped with the same findings.
proof fn lemma_scan_stops(
    units: Seq<SourceUnit>,
    c: ContractDefinition,
    node: ContractDefinitionNode,
    ids: Seq<NodeId>,
    k: int,
)
    requires
        0 <= k <= ids.len(),
        erc20_scan(units, c, node, ids.take(k)).1,
    ensures
        erc20_scan(units, c, node, ids) == erc20_scan(units, c, node, ids.take(k)),
    decreases ids.len() - k,
{
    if k < ids.len() {
        assert(ids.take(k + 1).drop_last() =~= ids.take(k));
        lemma_scan_stops(units, c, node, ids, k + 1);
    } else {
        assert(ids.take(k) =~= ids);
    }
}

/// The findings of a prefix begin the findings of the whole.
proof fn lemma_scan_grows(
    units: Seq<SourceUnit>,
    c: ContractDefinition,
    node: ContractDefinitionNode,
    ids: Seq<NodeId>,
    k: int,
)
    requires
        0 <= k <= ids.len(),
    ensures
        erc20_scan(units, c, node, ids.take(k)).0.len() <= erc20_scan(units, c, node, ids).0.len(),
    decreases ids.len() - k,
{
    if k < ids.len() {
        assert(ids.take(k + 1).drop_last() =~= ids.take(k));
        lemma_scan_grows(units, c, node, ids, k + 1);
    } else {
        assert(ids.take(k) =~= ids);
    }
}

} // verus!
