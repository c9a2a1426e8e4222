//! Source files that do not state an SPDX license identifier.
use vstd::prelude::*;
use crate::analysis::{unit_path, Output, UnitCtx};

verus! {

pub struct NoSpdxIdentifierVisitor {}

impl NoSpdxIdentifierVisitor {
    pub fn new() -> Self {
        NoSpdxIdentifierVisitor {}
    }

    /// Reports a source unit that has no license, with no line.
    pub fn visit_source_unit(&mut self, ctx: &UnitCtx, out: &mut Output)
        requires
            old(out).wf(),
        ensures
            final(out).wf(),
            old(out).extends(*final(out)),
            final(out).printed == old(out).printed,
            ctx.unit.license is Some ==> final(out).report == old(out).report,
            ctx.unit.license is None ==> final(out).report.entries_of(unit_path(*ctx.unit))
                == old(out).report.entries_of(unit_path(*ctx.unit)).push(
                (None, "\tSPDX license identifier not provided in source file; Consider adding one before deployment"@),
            ),
            forall|p: Seq<char>| p != unit_path(*ctx.unit) ==> final(out).report.entries_of(p) == old(out).report.entries_of(p),
    {
        if ctx.unit.license.is_none() {
            out.add(
                ctx.unit,
                None,
                String::from_str(
                    "\tSPDX license identifier not provided in source file; Consider adding one before deployment",
                ),
            );
        }
    }
}

} // verus!
