//! Comparisons of an unsigned integer with a literal whose outcome the
//! integer's type decides: `x >= 0`, `x < l` with `l` at least the type's
//! maximum, and `x <= l` with `l` above it.
use vstd::prelude::*;
use vstd::arithmetic::power2::{lemma_pow2_pos, lemma_pow2_strictly_increases, pow2};
use crate::analysis::redundant_comparisons::{literal_value, literal_words, uint_bits};
use crate::analysis::{DefCtx, Output};
use crate::ast::{BinaryOperation, ContractDefinition, ContractDefinitionNode, Expression, FunctionKind};
use crate::query::{expr_info, info_of};
use crate::render::{
    contract_kind_str, contract_kind_text, function_kind_str, function_kind_text, node_text, spec_node_text, visibility_str,
    visibility_text,
};
use crate::text::{is_prefix, parse_usize_std, starts_with, str_eq, trim_start_matches};
use crate::wide::{u512_ge, u512_gt, u512_is_zero, u512_one, u512_shl, u512_sub, words_value};

verus! {

/// The comparison has an unsigned integer, narrower than 512 bits, on the
/// left and a literal (on the right only) whose value settles it.
pub open spec fn unnecessary_comparison(b: BinaryOperation) -> bool {
    &&& *b.right_expression is Literal
    &&& !(*b.left_expression is Literal)
    &&& !(*b.left_expression is UnhandledExpression)
    &&& info_of(*b.left_expression).type_string matches Some(ts)
    &&& is_prefix("uint"@, ts@)
    &&& literal_value(*b.right_expression) matches Some(l)
    &&& uint_bits(ts@) matches Some(bits)
    &&& bits < 512
    &&& {
        let max = pow2(bits) - 1;
        ||| b.operator@ == ">="@ && l == 0
        ||| b.operator@ == "<"@ && l >= max
        ||| b.operator@ == "<="@ && l > max
    }
}

/// The line printed for such a comparison in the definition `node` of `c`,
/// where `node` is a function or modifier.
pub open spec fn comparison_line(c: ContractDefinition, node: ContractDefinitionNode, text: Seq<char>) -> Option<Seq<char>> {
    let tail = " in the `"@ + c.name@ + "` "@ + contract_kind_text(c.kind) + " contains a redundant comparison: "@ + text;
    match node {
        ContractDefinitionNode::FunctionDefinition(f) => Some(
            "\tThe "@ + visibility_text(f.visibility) + " "@ + (if f.kind == FunctionKind::Constructor {
                "constructor"@
            } else {
                "`"@ + f.name@ + "` "@ + function_kind_text(f.kind)
            }) + tail,
        ),
        ContractDefinitionNode::ModifierDefinition(m) => Some("\tThe "@ + m.name@ + " modifier"@ + tail),
        _ => None,
    }
}

/// Whether the comparison's outcome is settled, as `unnecessary_comparison` says.
pub fn is_unnecessary_comparison(b: &BinaryOperation) -> (r: bool)
    ensures
        r == unnecessary_comparison(*b),
{
    match (&*b.left_expression, &*b.right_expression) {
        (Expression::Literal(_), _) => return false,
        (Expression::UnhandledExpression { .. }, _) => return false,
        (_, Expression::Literal(_)) => {},
        _ => return false,
    }
    let ts = match &expr_info(&b.left_expression).type_string {
        Some(ts) => ts,
        None => return false,
    };
    proof { reveal_strlit("uint"); }
    if !starts_with(ts.as_str(), "uint") {
        return false;
    }
    let lit = match literal_words(&b.right_expression) {
        Some(w) => w,
        None => return false,
    };
    let rest = trim_start_matches(ts.as_str(), "uint");
    let bits: usize = if rest.unicode_len() == 0 {
        256
    } else {
        match parse_usize_std(rest) {
            Some(x) => x,
            None => return false,
        }
    };
    if bits >= 512 {
        return false;
    }
    let one = u512_one();
    let top = u512_shl(one, bits);
    proof {
        lemma_pow2_strictly_increases(bits as nat, 512);
        lemma_pow2_pos(bits as nat);
        assert(1 * pow2(bits as nat) == pow2(bits as nat));
        vstd::arithmetic::div_mod::lemma_small_mod(pow2(bits as nat), pow2(512));
    }
    let max = u512_sub(top, one);
    assert(words_value(max) == pow2(bits as nat) - 1);
    assert(uint_bits(ts@) == Some(bits as nat));
    assert(literal_value(*b.right_expression) == Some(words_value(lit)));
    let op = b.operator.as_str();
    proof {
        reveal_strlit(">=");
        reveal_strlit("<");
        reveal_strlit("<=");
        assert(">="@.len() == 2 && "<"@.len() == 1 && "<="@.len() == 2);
        assert(">="@[0] == '>' && "<="@[0] == '<');
        assert(">="@ != "<="@);
    }
    if str_eq(op, ">=") {
        u512_is_zero(lit)
    } else if str_eq(op, "<") {
        u512_ge(lit, max)
    } else if str_eq(op, "<=") {
        u512_gt(lit, max)
    } else {
        false
    }
}

fn comparison_string(c: &ContractDefinition, node: &ContractDefinitionNode, text: &String) -> (r: Option<String>)
    ensures
        match comparison_line(*c, *node, text@) {
            Some(l) => r matches Some(s) && s@ == l,
            None => r is None,
        },
{
    let tail = String::from_str(" in the `").concat(c.name.as_str()).concat("` ").concat(contract_kind_str(c.kind)).concat(
        " contains a redundant comparison: ",
    ).concat(text.as_str());
    match node {
        ContractDefinitionNode::FunctionDefinition(f) => {
            let what = if f.kind == FunctionKind::Constructor {
                String::from_str("constructor")
            } else {
                String::from_str("`").concat(f.name.as_str()).concat("` ").concat(function_kind_str(f.kind))
            };
            let r = String::from_str("\tThe ").concat(visibility_str(f.visibility)).concat(" ").concat(what.as_str()).concat(
                tail.as_str(),
            );
            assert(r@ =~= comparison_line(*c, *node, text@)->Some_0);
            Some(r)
        },
        ContractDefinitionNode::ModifierDefinition(m) => {
            let r = String::from_str("\tThe ").concat(m.name.as_str()).concat(" modifier").concat(tail.as_str());
            assert(r@ =~= comparison_line(*c, *node, text@)->Some_0);
            Some(r)
        },
        _ => None,
    }
}

pub struct UnnecessaryComparisonsVisitor {}

impl UnnecessaryComparisonsVisitor {
    pub fn new() -> Self {
        UnnecessaryComparisonsVisitor {}
    }

    /// Prints a comparison, in a function or modifier, that the type of its
    /// left side settles; the comparison is shown as written.
    pub fn visit_binary_operation(&mut self, ctx: &DefCtx, b: &BinaryOperation, out: &mut Output)
        requires
            old(out).wf(),
        ensures
            final(out).wf(),
            old(out).extends(*final(out)),
            final(out).report == old(out).report,
            final(out).printed@.map_values(|s: String| s@) == if unnecessary_comparison(*b) && comparison_line(
                *ctx.contract,
                *ctx.node,
                spec_node_text(*ctx.unit, b.info.src@),
            ) is Some {
                old(out).printed@.map_values(|s: String| s@).push(
                    comparison_line(*ctx.contract, *ctx.node, spec_node_text(*ctx.unit, b.info.src@))->Some_0,
                )
            } else {
                old(out).printed@.map_values(|s: String| s@)
            },
    {
        proof { Output::lemma_extends_refl(*out); }
        if !is_unnecessary_comparison(b) {
            return;
        }
        let text = node_text(ctx.unit, b.info.src.as_str());
        if let Some(line) = comparison_string(ctx.contract, ctx.node, &text) {
            let ghost before = out.printed@;
            let ghost l = line@;
            out.print(line);
            assert(out.printed@.map_values(|s: String| s@) =~= before.map_values(|s: String| s@).push(l));
        }
    }
}

} // verus!
