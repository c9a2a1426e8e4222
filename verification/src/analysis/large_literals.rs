//! Long numeric literals that are hard to read.
use vstd::prelude::*;
use crate::analysis::{reported_at_if, DefCtx, Output};
use crate::ast::Literal;
use crate::render::{definition_node_location, location_text, node_text, spec_node_text, AnalysisError};
use crate::text::is_ascii_digit;
use vstd::string::StrSliceExecFns;
use vstd::utf8::encode_utf8;

verus! {

/// Whether `c` is numeric in the sense of Rust's `char::is_numeric`.
pub uninterp spec fn is_numeric_char(c: char) -> bool;

/// Rust's `char::is_numeric`: whether `c` belongs to one of Unicode's number
/// categories. Claimed here: an ASCII decimal digit is numeric, no other ASCII
/// character is, and the answer depends on `c` alone; which other characters
/// are numeric is left unsaid.
#[verifier::external_body]
fn char_is_numeric(c: char) -> (r: bool)
    ensures
        r == is_numeric_char(c),
        is_ascii_digit(c) ==> r,
        (c as u32) < 128 && !is_ascii_digit(c) ==> !r,
{
    c.is_numeric()
}

/// A literal is large when all its characters are numeric and its length in
/// bytes is above 6 and not a multiple of 3.
pub open spec fn spec_is_large(value: Seq<char>) -> bool {
    &&& forall|i: int| 0 <= i < value.len() ==> is_numeric_char(#[trigger] value[i])
    &&& (encode_utf8(value).len() as usize) > 6
    &&& (encode_utf8(value).len() as usize) % 3 != 0
}

pub fn is_large_literal(value: &str) -> (r: bool)
    ensures
        r == spec_is_large(value@),
{
    let n = value.unicode_len();
    let mut i: usize = 0;
    while i < n
        invariant
            n == value@.len(),
            i <= n,
            forall|j: int| 0 <= j < i ==> is_numeric_char(#[trigger] value@[j]),
        decreases n - i,
    {
        if !char_is_numeric(value.get_char(i)) {
            return false;
        }
        i = i + 1;
    }
    let b = value.len();
    b > 6 && b % 3 != 0
}

pub struct LargeLiteralsVisitor {}

impl LargeLiteralsVisitor {
    pub fn new() -> Self {
        LargeLiteralsVisitor {}
    }

    /// Files a literal of a definition whose value is large.
    pub fn visit_literal(&mut self, ctx: &DefCtx, l: &Literal, out: &mut Output) -> (r: Result<(), AnalysisError>)
        requires
            old(out).wf(),
        ensures
            final(out).wf(),
            old(out).extends(*final(out)),
            reported_at_if(
                *old(out),
                *final(out),
                *ctx.unit,
                l.info.src@,
                l.value matches Some(v) && spec_is_large(v@),
                location_text(*ctx.contract, *ctx.node) + " contains a large literal, which may be difficult to read: `"@
                    + spec_node_text(*ctx.unit, l.info.src@) + "`"@,
                r is Ok,
            ),
    {
        proof { Output::lemma_extends_refl(*out); }
        if let Some(value) = &l.value {
            if is_large_literal(value.as_str()) {
                let msg = definition_node_location(ctx.contract, ctx.node).concat(
                    " contains a large literal, which may be difficult to read: `",
                ).concat(node_text(ctx.unit, l.info.src.as_str()).as_str()).concat("`");
                out.add_at(ctx.unit, l.info.src.as_str(), msg)?;
            }
        }
        Ok(())
    }
}

} // verus!
