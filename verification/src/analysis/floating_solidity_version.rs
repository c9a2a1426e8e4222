//! `pragma solidity` directives that do not lock the compiler version.
use vstd::prelude::*;
use crate::analysis::{reported_at_if, Output, UnitCtx};
use crate::ast::PragmaDirective;
use crate::render::AnalysisError;
use crate::text::str_eq;

verus! {

/// Whether a pragma literal is a range operator (`^`, `>`, `>=`, `<`, `<=`).
pub open spec fn is_range_op(l: Seq<char>) -> bool {
    l == "^"@ || l == ">"@ || l == ">="@ || l == "<"@ || l == "<="@
}

/// The version text of a `pragma solidity` directive's literals (the word
/// `solidity` left out): the literals joined, with a space before each range
/// operator that follows other text.
pub open spec fn pragma_text(ls: Seq<Seq<char>>) -> Seq<char>
    decreases ls.len(),
{
    if ls.len() == 0 {
        Seq::empty()
    } else {
        let p = pragma_text(ls.drop_last());
        (if is_range_op(ls.last()) && p.len() > 0 { p + " "@ } else { p }) + ls.last()
    }
}

/// Whether the version literals hold a range operator.
pub open spec fn is_floating(ls: Seq<Seq<char>>) -> bool {
    exists|i: int| 0 <= i < ls.len() && is_range_op(#[trigger] ls[i])
}

pub fn is_range_operator(l: &str) -> (r: bool)
    ensures
        r == is_range_op(l@),
{
    str_eq(l, "^") || str_eq(l, ">") || str_eq(l, ">=") || str_eq(l, "<") || str_eq(l, "<=")
}

/// For a `pragma solidity` directive whose version floats, its version text.
pub fn floating_version(p: &PragmaDirective) -> (r: Option<String>)
    ensures
        ({
            let ls = p.literals@.map_values(|l: String| l@);
            &&& r is Some <==> (ls.len() > 0 && ls[0] == "solidity"@ && is_floating(ls.drop_first()))
            &&& r matches Some(t) ==> t@ == pragma_text(ls.drop_first())
        }),
{
    let ghost ls = p.literals@.map_values(|l: String| l@);
    let n = p.literals.len();
    if n == 0 || !str_eq(p.literals[0].as_str(), "solidity") {
        return None;
    }
    let ghost rest = ls.drop_first();
    let mut text = String::new();
    let mut floating = false;
    let mut i: usize = 1;
    assert(rest.take(0) =~= Seq::<Seq<char>>::empty());
    while i < n
        invariant
            n == p.literals@.len(),
            ls == p.literals@.map_values(|l: String| l@),
            rest == ls.drop_first(),
            1 <= i <= n,
            text@ == pragma_text(rest.take(i - 1)),
            floating == is_floating(rest.take(i - 1)),
        decreases n - i,
    {
        let l = p.literals[i].as_str();
        let op = is_range_operator(l);
        if op {
            if text.unicode_len() > 0 {
                text.append(" ");
            }
            floating = true;
        }
        text.append(l);
        proof {
            let t = rest.take(i as int);
            assert(t.drop_last() =~= rest.take(i - 1));
            assert(t.last() == l@);
            if is_floating(t.drop_last()) {
                let k = choose|k: int| 0 <= k < t.drop_last().len() && is_range_op(#[trigger] t.drop_last()[k]);
                assert(t[k] == t.drop_last()[k]);
            }
            if is_floating(t) && !op {
                let k = choose|k: int| 0 <= k < t.len() && is_range_op(#[trigger] t[k]);
                assert(t.drop_last()[k] == t[k]);
            }
            if op {
                assert(is_range_op(t[t.len() - 1]));
            }
        }
        i = i + 1;
    }
    assert(rest.take(n - 1) =~= rest);
    if floating {
        Some(text)
    } else {
        None
    }
}

/// `after` is `before` with the finding for a floating `pragma solidity`
/// directive `p` filed, if it is one.
pub open spec fn pragma_reported(before: Output, after: Output, ctx: UnitCtx, p: PragmaDirective, ok: bool) -> bool {
    let ls = p.literals@.map_values(|l: String| l@);
    reported_at_if(
        before,
        after,
        *ctx.unit,
        p.info.src@,
        ls.len() > 0 && ls[0] == "solidity"@ && is_floating(ls.drop_first()),
        "Floating solidity version: "@ + pragma_text(ls.drop_first()) + "; Consider locking before deployment"@,
        ok,
    )
}

pub struct FloatingSolidityVersionVisitor {}

impl FloatingSolidityVersionVisitor {
    pub fn new() -> Self {
        FloatingSolidityVersionVisitor {}
    }

    /// Files a `pragma solidity` directive whose version floats.
    pub fn visit_pragma_directive(&mut self, ctx: &UnitCtx, p: &PragmaDirective, out: &mut Output) -> (r: Result<(), AnalysisError>)
        requires
            old(out).wf(),
        ensures
            final(out).wf(),
            old(out).extends(*final(out)),
            pragma_reported(*old(out), *final(out), *ctx, *p, r is Ok),
    {
        proof { Output::lemma_extends_refl(*out); }
        if let Some(text) = floating_version(p) {
            let msg = String::from_str("Floating solidity version: ").concat(text.as_str()).concat(
                "; Consider locking before deployment",
            );
            out.add_at(ctx.unit, p.info.src.as_str(), msg)?;
        }
        Ok(())
    }
}

} // verus!
