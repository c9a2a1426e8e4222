//! Comparisons whose outcome is known: of two literals, or of an unsigned
//! integer against a literal at or beyond the ends of its type's range.
use vstd::prelude::*;
use vstd::arithmetic::power2::{lemma_pow2_pos, lemma_pow2_strictly_increases, pow2};
use crate::analysis::{printed_at_if, DefCtx, Output};
use crate::ast::{BinaryOperation, Expression};
use crate::query::{definition_id, expr_info, function_or_modifier_id, info_of};
use crate::render::{definition_node_location, location_text, node_text, spec_node_text, AnalysisError};
use crate::text::{
    all_radix_digits, is_prefix, parse_usize_std, radix_value, starts_with, str_eq, trim_start_all, trim_start_matches,
    usize_from_str,
};
use crate::wide::{
    hex_digits, u512_from_dec_str, u512_from_hex_str, u512_ge, u512_gt, u512_is_zero, u512_one, u512_shl, u512_sub,
    words_value,
};

verus! {

/// A comparison operator.
pub open spec fn is_comparison(op: Seq<char>) -> bool {
    op == "=="@ || op == "!="@ || op == ">"@ || op == ">="@ || op == "<"@ || op == "<="@
}

/// The value of a literal as the analysis reads it: its hex value where it
/// has one, else its decimal value; `None` where that does not parse as a
/// 512-bit number.
pub open spec fn literal_value(e: Expression) -> Option<nat> {
    match e {
        Expression::Literal(l) => match l.hex_value {
            Some(h) => if hex_digits(h@).len() <= 128 && all_radix_digits(hex_digits(h@), 16) {
                Some(radix_value(hex_digits(h@), 16))
            } else {
                None
            },
            None => match l.value {
                Some(v) => if all_radix_digits(v@, 10) && radix_value(v@, 10) < pow2(512) {
                    Some(radix_value(v@, 10))
                } else {
                    None
                },
                None => None,
            },
        },
        _ => None,
    }
}

/// The width in bits of an unsigned integer type, as the analysis reads its
/// name: `uint` alone is 256 bits.
pub open spec fn uint_bits(ts: Seq<char>) -> Option<nat> {
    if is_prefix("uint"@, ts) {
        let rest = trim_start_all(ts, "uint"@);
        if rest.len() == 0 {
            Some(256)
        } else {
            usize_from_str(rest)
        }
    } else {
        None
    }
}

/// The right-hand literal makes the comparison's outcome known: the left
/// side is an unsigned integer narrower than 512 bits, and the comparison
/// is `x >= 0`, `x <= l` with `l` above the type's maximum, or `x > l` or
/// `x < l` with `l` at least that maximum.
pub open spec fn right_literal_redundant(b: BinaryOperation) -> bool {
    &&& !(*b.left_expression is UnhandledExpression)
    &&& info_of(*b.left_expression).type_string matches Some(ts)
    &&& literal_value(*b.right_expression) matches Some(l)
    &&& uint_bits(ts@) matches Some(bits)
    &&& bits < 512
    &&& {
        let max = pow2(bits) - 1;
        if b.operator@ == ">="@ {
            l == 0
        } else if b.operator@ == "<="@ {
            l > max
        } else if b.operator@ == ">"@ || b.operator@ == "<"@ {
            l >= max
        } else {
            false
        }
    }
}

/// The comparison's outcome is known.
pub open spec fn is_redundant_comparison(b: BinaryOperation) -> bool {
    &&& is_comparison(b.operator@)
    &&& (*b.right_expression is Literal && (*b.left_expression is Literal || right_literal_redundant(b)))
}

pub(crate) fn literal_words(e: &Expression) -> (r: Option<[u64; 8]>)
    ensures
        match r {
            Some(w) => literal_value(*e) == Some(words_value(w)),
            None => literal_value(*e) is None,
        },
{
    match e {
        Expression::Literal(l) => match &l.hex_value {
            Some(h) => u512_from_hex_str(h.as_str()),
            None => match &l.value {
                Some(v) => u512_from_dec_str(v.as_str()),
                None => None,
            },
        },
        _ => None,
    }
}

fn right_redundant(b: &BinaryOperation) -> (r: bool)
    ensures
        r == right_literal_redundant(*b),
{
    if let Expression::UnhandledExpression { .. } = &*b.left_expression {
        return false;
    }
    let ts = match &expr_info(&b.left_expression).type_string {
        Some(ts) => ts,
        None => return false,
    };
    let lit = match literal_words(&b.right_expression) {
        Some(w) => w,
        None => return false,
    };
    proof { reveal_strlit("uint"); }
    if !starts_with(ts.as_str(), "uint") {
        return false;
    }
    let rest = trim_start_matches(ts.as_str(), "uint");
    let bits: usize = if rest.unicode_len() == 0 {
        256
    } else {
        match parse_usize_std(rest) {
            Some(x) => x,
            None => return false,
        }
    };
    if bits >= 512 {
        return false;
    }
    let one = u512_one();
    let top = u512_shl(one, bits);
    proof {
        lemma_pow2_strictly_increases(bits as nat, 512);
        lemma_pow2_pos(bits as nat);
        assert(1 * pow2(bits as nat) == pow2(bits as nat));
        vstd::arithmetic::div_mod::lemma_small_mod(pow2(bits as nat), pow2(512));
    }
    let max = u512_sub(top, one);
    assert(words_value(max) == pow2(bits as nat) - 1);
    if str_eq(b.operator.as_str(), ">=") {
        u512_is_zero(lit)
    } else if str_eq(b.operator.as_str(), "<=") {
        u512_gt(lit, max)
    } else if str_eq(b.operator.as_str(), ">") || str_eq(b.operator.as_str(), "<") {
        u512_ge(lit, max)
    } else {
        false
    }
}

pub fn redundant_comparison(b: &BinaryOperation) -> (r: bool)
    ensures
        r == is_redundant_comparison(*b),
{
    let op = b.operator.as_str();
    if !(str_eq(op, "==") || str_eq(op, "!=") || str_eq(op, ">") || str_eq(op, ">=") || str_eq(op, "<") || str_eq(op, "<=")) {
        return false;
    }
    match (&*b.left_expression, &*b.right_expression) {
        (Expression::Literal(_), Expression::Literal(_)) => true,
        (_, Expression::Literal(_)) => right_redundant(b),
        _ => false,
    }
}

pub struct RedundantComparisonsVisitor {}

impl RedundantComparisonsVisitor {
    pub fn new() -> Self {
        RedundantComparisonsVisitor {}
    }

    /// Prints a comparison, in a function or modifier, whose outcome is known.
    pub fn visit_binary_operation(&mut self, ctx: &DefCtx, b: &BinaryOperation, out: &mut Output) -> (r: Result<
        (),
        AnalysisError,
    >)
        requires
            old(out).wf(),
        ensures
            final(out).wf(),
            old(out).extends(*final(out)),
            printed_at_if(
                *old(out),
                *final(out),
                *ctx.unit,
                b.info.src@,
                definition_id(*ctx.node) is Some && is_redundant_comparison(*b),
                location_text(*ctx.contract, *ctx.node) + " contains a redundant comparison: `"@ + spec_node_text(
                    *ctx.unit,
                    b.info.src@,
                ) + "`"@,
                r is Ok,
            ),
    {
        proof { Output::lemma_extends_refl(*out); }
        if function_or_modifier_id(ctx.node).is_none() || !redundant_comparison(b) {
            return Ok(());
        }
        let msg = definition_node_location(ctx.contract, ctx.node).concat(" contains a redundant comparison: `").concat(
            node_text(ctx.unit, b.info.src.as_str()).as_str(),
        ).concat("`");
        out.print_at(ctx.unit, b.info.src.as_str(), msg)
    }
}

} // verus!
