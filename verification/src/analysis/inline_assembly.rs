//! Inline assembly, and two patterns in it worth a second look: loading the
//! free memory pointer, and copying call data past the selector.
use vstd::prelude::*;
use crate::analysis::{DefCtx, Output};
use crate::ast::{InlineAssembly, YulExpression};
use crate::render::{definition_node_location, location_text, AnalysisError};
use crate::text::{int_literal_value, parse_int_literal, str_eq};

verus! {

/// The text of a Yul literal: its value, or else its hex value.
pub open spec fn yul_literal_text(e: YulExpression) -> Option<Seq<char>> {
    match e {
        YulExpression::YulLiteral { value: Some(v), .. } => Some(v@),
        YulExpression::YulLiteral { value: None, hex_value: Some(h) } => Some(h@),
        _ => None,
    }
}

fn literal_text(e: &YulExpression) -> (r: Option<&String>)
    ensures
        match r {
            Some(s) => yul_literal_text(*e) == Some(s@),
            None => yul_literal_text(*e) is None,
        },
{
    match e {
        YulExpression::YulLiteral { value: Some(v), .. } => Some(v),
        YulExpression::YulLiteral { value: None, hex_value: Some(h) } => Some(h),
        _ => None,
    }
}

/// A literal whose numeric value is `n`.
pub open spec fn literal_is(e: YulExpression, n: int) -> bool {
    yul_literal_text(e) matches Some(t) && int_literal_value(t) == Some(n)
}

fn is_literal_number(e: &YulExpression, n: i64) -> (r: bool)
    ensures
        r == literal_is(*e, n as int),
{
    match literal_text(e) {
        Some(t) => match parse_int_literal(t.as_str()) {
            Some(v) => v == n,
            None => false,
        },
        None => false,
    }
}

/// `mload(0x40)`: a load of the free memory pointer.
pub open spec fn loads_free_memory_pointer(name: Seq<char>, args: Seq<YulExpression>) -> bool {
    name == "mload"@ && args.len() > 0 && literal_is(args[0], 0x40)
}

/// `calldatacopy(_, _, sub(calldatasize(), 4))`: a copy of every argument
/// after the selector.
pub open spec fn copies_arguments(name: Seq<char>, args: Seq<YulExpression>) -> bool {
    &&& name == "calldatacopy"@
    &&& args.len() > 2
    &&& args[2] matches YulExpression::YulFunctionCall { function_name: sub, arguments: sub_args }
    &&& sub@ == "sub"@
    &&& sub_args@.len() > 1
    &&& sub_args@[0] matches YulExpression::YulFunctionCall { function_name: size, .. }
    &&& size@ == "calldatasize"@
    &&& literal_is(sub_args@[1], 4)
}

pub struct InlineAssemblyVisitor {}

impl InlineAssemblyVisitor {
    pub fn new() -> Self {
        InlineAssemblyVisitor {}
    }

    /// Reports each inline assembly statement.
    pub fn visit_inline_assembly(&mut self, ctx: &DefCtx, a: &InlineAssembly, out: &mut Output) -> (r: Result<
        (),
        AnalysisError,
    >)
        requires
            old(out).wf(),
        ensures
            final(out).wf(),
            old(out).extends(*final(out)),
            final(out).printed == old(out).printed,
            r is Ok ==> final(out).report.entries_of(crate::analysis::unit_path(*ctx.unit)) == old(
                out,
            ).report.entries_of(crate::analysis::unit_path(*ctx.unit)).push(
                (
                    Some(crate::render::spec_source_line(*ctx.unit, a.info.src@)->Ok_0 as usize),
                    location_text(*ctx.contract, *ctx.node) + " contains inline assembly usage"@,
                ),
            ),
            r is Ok <==> crate::render::spec_source_line(*ctx.unit, a.info.src@) is Ok,
            r is Err ==> final(out).report == old(out).report,
            forall|p: Seq<char>| p != crate::analysis::unit_path(*ctx.unit) ==> final(out).report.entries_of(p)
                == old(out).report.entries_of(p),
    {
        let msg = definition_node_location(ctx.contract, ctx.node).concat(" contains inline assembly usage");
        out.add_at(ctx.unit, a.info.src.as_str(), msg)
    }

    /// Reports a load of the free memory pointer, and a copy of every call
    /// argument, at the line of the assembly statement that holds them.
    pub fn visit_yul_function_call(
        &mut self,
        ctx: &DefCtx,
        a: &InlineAssembly,
        name: &String,
        args: &Vec<YulExpression>,
        out: &mut Output,
    ) -> (r: Result<(), AnalysisError>)
        requires
            old(out).wf(),
        ensures
            final(out).wf(),
            old(out).extends(*final(out)),
            final(out).printed == old(out).printed,
            !loads_free_memory_pointer(name@, args@) && !copies_arguments(name@, args@) ==> final(out).report
                == old(out).report && r is Ok,
            r is Ok && loads_free_memory_pointer(name@, args@) ==> final(out).report.entries_of(
                crate::analysis::unit_path(*ctx.unit),
            ) == old(out).report.entries_of(crate::analysis::unit_path(*ctx.unit)).push(
                (
                    Some(crate::render::spec_source_line(*ctx.unit, a.info.src@)->Ok_0 as usize),
                    location_text(*ctx.contract, *ctx.node)
                        + " contains inline assembly which loads the free memory pointer"@,
                ),
            ),
            r is Ok && copies_arguments(name@, args@) ==> final(out).report.entries_of(
                crate::analysis::unit_path(*ctx.unit),
            ) == old(out).report.entries_of(crate::analysis::unit_path(*ctx.unit)).push(
                (
                    Some(crate::render::spec_source_line(*ctx.unit, a.info.src@)->Ok_0 as usize),
                    location_text(*ctx.contract, *ctx.node)
                        + " contains inline assembly which copies arbitrary function arguments"@,
                ),
            ),
            (loads_free_memory_pointer(name@, args@) || copies_arguments(name@, args@)) ==> (r is Ok <==> crate::render::spec_source_line(*ctx.unit, a.info.src@) is Ok),
            r is Err ==> final(out).report == old(out).report,
            forall|p: Seq<char>| p != crate::analysis::unit_path(*ctx.unit) ==> final(out).report.entries_of(p)
                == old(out).report.entries_of(p),
    {
        proof {
            Output::lemma_extends_refl(*out);
            reveal_strlit("mload");
            reveal_strlit("calldatacopy");
            assert("mload"@.len() == 5);
            assert("calldatacopy"@.len() == 12);
        }
        if str_eq(name.as_str(), "mload") {
            if args.len() > 0 && is_literal_number(&args[0], 0x40) {
                let msg = definition_node_location(ctx.contract, ctx.node).concat(
                    " contains inline assembly which loads the free memory pointer",
                );
                return out.add_at(ctx.unit, a.info.src.as_str(), msg);
            }
            return Ok(());
        }
        if !str_eq(name.as_str(), "calldatacopy") || args.len() <= 2 {
            return Ok(());
        }
        let found = match &args[2] {
            YulExpression::YulFunctionCall { function_name: sub, arguments: sub_args } => {
                str_eq(sub.as_str(), "sub") && sub_args.len() > 1 && match &sub_args[0] {
                    YulExpression::YulFunctionCall { function_name: size, .. } => str_eq(
                        size.as_str(),
                        "calldatasize",
                    ),
                    _ => false,
                } && is_literal_number(&sub_args[1], 4)
            },
            _ => false,
        };
        if found {
            let msg = definition_node_location(ctx.contract, ctx.node).concat(
                " contains inline assembly which copies arbitrary function arguments",
            );
            return out.add_at(ctx.unit, a.info.src.as_str(), msg);
        }
        Ok(())
    }
}

} // verus!
