//! The walk over a project's source units: each analysis that was asked for
//! is handed each node, in the order of the source, and in the order the
//! analyses are listed.
use vstd::prelude::*;
use crate::analysis::{
    lemma_extends_chain, lemma_normal_path_first, lemma_only_under_chain, line_text, only_under, printed_texts, unit_path, only_if, DefCtx, Output,
    UnitCtx,
};
use crate::analysis::divide_before_multiply::spec_divide_before_multiply;
use crate::analysis::redundant_comparisons::is_redundant_comparison;
use crate::analysis::address_zero::spec_compares_address_zero;
use crate::analysis::assignment_comparisons::assignment_text;
use crate::analysis::redundant_state_variable_access::{reads_state, storage_text};
use crate::analysis::{found_line, lemma_printed_step, lemma_reported_step, opt_entry, opt_line, printed_two};
use crate::analysis::external_calls_in_loop::loop_call_text;
use crate::analysis::manipulatable_balance_usage::spec_own_balance;
use crate::analysis::address_balance::spec_balance_of;
use crate::analysis::line_ok;
use crate::analysis::redundant_assignments::repeat_count;
use crate::analysis::array_assignment::spec_inefficient_array_assignment;
use crate::query::{contains_op, info_of};
use crate::render::{location_text, spec_node_text, spec_source_line};
use crate::analysis::no_spdx_identifier::NoSpdxIdentifierVisitor;
use crate::analysis::floating_solidity_version::FloatingSolidityVersionVisitor;
use crate::analysis::redundant_imports::RedundantImportsVisitor;
use crate::analysis::abstract_contracts::AbstractContractsVisitor;
use crate::analysis::large_literals::LargeLiteralsVisitor;
use crate::analysis::tight_variable_packing::TightVariablePackingVisitor;
use crate::analysis::redundant_getter_function::RedundantGetterFunctionVisitor;
use crate::analysis::require_without_message::RequireWithoutMessageVisitor;
use crate::analysis::state_variable_shadowing::StateVariableShadowingVisitor;
use crate::analysis::explicit_variable_return::ExplicitVariableReturnVisitor;
use crate::analysis::unused_return::UnusedReturnVisitor;
use crate::analysis::storage_array_loop::StorageArrayLoopVisitor;
use crate::analysis::external_calls_in_loop::ExternalCallsInLoopVisitor;
use crate::analysis::check_effects_interactions::CheckEffectsInteractionsVisitor;
use crate::analysis::secure_ether_transfer::SecureEtherTransferVisitor;
use crate::analysis::safe_erc20_functions::SafeERC20FunctionsVisitor;
use crate::analysis::unchecked_erc20_transfer::UncheckedERC20TransferVisitor;
use crate::analysis::unpaid_payable_functions::UnpaidPayableFunctionsVisitor;
use crate::analysis::divide_before_multiply::DivideBeforeMultiplyVisitor;
use crate::analysis::comparison_utilization::ComparisonUtilizationVisitor;
use crate::analysis::assignment_comparisons::AssignmentComparisonsVisitor;
use crate::analysis::state_variable_mutability::StateVariableMutabilityVisitor;
use crate::analysis::unreferenced_state_variables::UnusedStateVariablesVisitor;
use crate::analysis::ineffectual_statements::IneffectualStatementsVisitor;
use crate::analysis::inline_assembly::InlineAssemblyVisitor;
use crate::analysis::unchecked_casting::UncheckedCastingVisitor;
use crate::analysis::missing_return::MissingReturnVisitor;
use crate::analysis::redundant_state_variable_access::RedundantStateVariableAccessVisitor;
use crate::analysis::redundant_comparisons::RedundantComparisonsVisitor;
use crate::analysis::assert_usage::AssertUsageVisitor;
use crate::analysis::selfdestruct_usage::SelfdestructUsageVisitor;
use crate::analysis::unrestricted_setter_functions::UnrestrictedSetterFunctionsVisitor;
use crate::analysis::manipulatable_balance_usage::ManipulatableBalanceUsageVisitor;
use crate::analysis::redundant_assignments::RedundantAssignmentsVisitor;
use crate::analysis::invalid_using_for_directives::InvalidUsingForDirectivesVisitor;
use crate::analysis::abi_encoding::AbiEncodingVisitor;
use crate::analysis::address_balance::AddressBalanceVisitor;
use crate::analysis::address_zero::AddressZeroVisitor;
use crate::analysis::array_assignment::ArrayAssignmentVisitor;
use crate::ast::{
    Assignment, BinaryOperation, Block, UnaryOperation, Return, TryCatchClause, VariableDeclarationStatement, YulCase, BlockOrStatement, ContractDefinition, Conditional, ContractDefinitionNode, ContractKind, Expression, FunctionCallOptions, FunctionKind, Literal,
    ForStatement, FunctionCall, FunctionDefinition, Identifier, IfStatement, InlineAssembly, MemberAccess, NodeId,
    SourceUnit, SourceUnitNode, Statement, VariableDeclaration, WhileStatement, YulBlock, YulExpression, YulStatement,
};
use crate::render::{i64_to_string, AnalysisError};
use crate::analysis::storage_array_loop::{is_storage_array, loop_text, reads_length};
use crate::analysis::check_effects_interactions::pattern_text;
use crate::analysis::unchecked_erc20_transfer::unchecked_text;
use crate::analysis::missing_return::{misses_return, missing_return_line};
use crate::analysis::state_variable_mutability::mutability_entries;
use crate::analysis::unreferenced_state_variables::unreferenced_lines;
use crate::report::EntryView;
use crate::analysis::unused_return::{call_src, dropped_return, dropped_text};
use crate::analysis::ineffectual_statements::ineffectual_kind;
use crate::analysis::selfdestruct_usage::spec_selfdestruct_call;
use crate::analysis::check_effects_interactions::{hierarchy_count, tuple_warning};
use crate::query::{assigned_vars, ident_named, in_hierarchy, refs};
use crate::analysis::require_without_message::spec_require_without_message;
use crate::analysis::assignment_comparisons::checking_call_name;
use crate::analysis::unchecked_casting::is_redundant_cast;
use crate::analysis::manipulatable_balance_usage::spec_own_token_balance;
use crate::analysis::abi_encoding::is_encode_packed;
use crate::analysis::large_literals::spec_is_large;
use crate::analysis::invalid_using_for_directives::is_invalid_using;
use crate::analysis::floating_solidity_version::pragma_reported;
use crate::analysis::tight_variable_packing::loose_struct_line;
use crate::render::contract_kind_text;
use crate::ast::StructDefinition;
use crate::analysis::printed_at_if;
use crate::analysis::explicit_variable_return::local_return;
use crate::analysis::reported_at_if;
use crate::analysis::inline_assembly::{copies_arguments, loads_free_memory_pointer};
use crate::analysis::state_variable_mutability::in_constructor;
use crate::analysis::secure_ether_transfer::spec_raw_transfer;
use crate::analysis::unpaid_payable_functions::spec_calls_payable;
use crate::analysis::safe_erc20_functions::{entries_at, erc20_scan};
use crate::analysis::unchecked_erc20_transfer::{saturating, transfer_count, transfer_increment, zero_checked};
use crate::analysis::abstract_contracts::spec_internal_constructor;
use crate::analysis::unrestricted_setter_functions::spec_unrestricted_setter;
use crate::analysis::redundant_getter_function::{getter_line, getter_target};
use crate::analysis::state_variable_shadowing::{shadowing_lines, texts};
use crate::render::visibility_text;
use crate::analysis::abi_encoding::is_dynamic_array;
use crate::analysis::tight_variable_packing::{is_loose, lines_of, loose_contract_line, member_sizes, state_variables};
use crate::query::definition_id;
use crate::text::str_eq;

verus! {

broadcast use {lemma_extends_chain, lemma_only_under_chain};

/// The analyses of a run; an analysis that was not asked for is `None`.
pub struct AstVisitorData {
    pub no_spdx_identifier: Option<NoSpdxIdentifierVisitor>,
    pub floating_solidity_version: Option<FloatingSolidityVersionVisitor>,
    pub redundant_imports: Option<RedundantImportsVisitor>,
    pub abstract_contracts: Option<AbstractContractsVisitor>,
    pub large_literals: Option<LargeLiteralsVisitor>,
    pub tight_variable_packing: Option<TightVariablePackingVisitor>,
    pub redundant_getter_function: Option<RedundantGetterFunctionVisitor>,
    pub require_without_message: Option<RequireWithoutMessageVisitor>,
    pub state_variable_shadowing: Option<StateVariableShadowingVisitor>,
    pub explicit_variable_return: Option<ExplicitVariableReturnVisitor>,
    pub unused_return: Option<UnusedReturnVisitor>,
    pub storage_array_loop: Option<StorageArrayLoopVisitor>,
    pub external_calls_in_loop: Option<ExternalCallsInLoopVisitor>,
    pub check_effects_interactions: Option<CheckEffectsInteractionsVisitor>,
    pub secure_ether_transfer: Option<SecureEtherTransferVisitor>,
    pub safe_erc20_functions: Option<SafeERC20FunctionsVisitor>,
    pub unchecked_erc20_transfer: Option<UncheckedERC20TransferVisitor>,
    pub unpaid_payable_functions: Option<UnpaidPayableFunctionsVisitor>,
    pub divide_before_multiply: Option<DivideBeforeMultiplyVisitor>,
    pub comparison_utilization: Option<ComparisonUtilizationVisitor>,
    pub assignment_comparisons: Option<AssignmentComparisonsVisitor>,
    pub state_variable_mutability: Option<StateVariableMutabilityVisitor>,
    pub unused_state_variables: Option<UnusedStateVariablesVisitor>,
    pub ineffectual_statements: Option<IneffectualStatementsVisitor>,
    pub inline_assembly: Option<InlineAssemblyVisitor>,
    pub unchecked_casting: Option<UncheckedCastingVisitor>,
    pub missing_return: Option<MissingReturnVisitor>,
    pub redundant_state_variable_access: Option<RedundantStateVariableAccessVisitor>,
    pub redundant_comparisons: Option<RedundantComparisonsVisitor>,
    pub assert_usage: Option<AssertUsageVisitor>,
    pub selfdestruct_usage: Option<SelfdestructUsageVisitor>,
    pub unrestricted_setter_functions: Option<UnrestrictedSetterFunctionsVisitor>,
    pub manipulatable_balance_usage: Option<ManipulatableBalanceUsageVisitor>,
    pub redundant_assignments: Option<RedundantAssignmentsVisitor>,
    pub invalid_using_for_directives: Option<InvalidUsingForDirectivesVisitor>,
    pub abi_encoding: Option<AbiEncodingVisitor>,
    pub address_balance: Option<AddressBalanceVisitor>,
    pub address_zero: Option<AddressZeroVisitor>,
    pub array_assignment: Option<ArrayAssignmentVisitor>,
}

/// The line printed for a statement the walk does not know.
pub open spec fn unhandled_text(what: Seq<char>, node_type: Seq<char>, src: Seq<char>, id: int) -> Seq<char> {
    "WARNING: Unhandled "@ + what + ": "@ + node_type + " Some(\""@ + src + "\") Some("@ + crate::render::signed_digits(id)
        + ")"@
}

fn unhandled_line(what: &str, node_type: &str, src: &str, id: NodeId) -> (r: String)
    ensures
        r@ == unhandled_text(what@, node_type@, src@, id as int),
{
    String::from_str("WARNING: Unhandled ").concat(what).concat(": ").concat(node_type).concat(" Some(\"").concat(
        src,
    ).concat("\") Some(").concat(i64_to_string(id).as_str()).concat(")")
}

pub open spec fn is_analysis_name(s: Seq<char>) -> bool {
    s == "no_spdx_identifier"@
        || s == "floating_solidity_version"@
        || s == "node_modules_imports"@
        || s == "redundant_imports"@
        || s == "abstract_contracts"@
        || s == "large_literals"@
        || s == "tight_variable_packing"@
        || s == "redundant_getter_function"@
        || s == "require_without_message"@
        || s == "state_variable_shadowing"@
        || s == "explicit_variable_return"@
        || s == "unused_return"@
        || s == "storage_array_loop"@
        || s == "external_calls_in_loop"@
        || s == "check_effects_interactions"@
        || s == "secure_ether_transfer"@
        || s == "safe_erc20_functions"@
        || s == "unchecked_erc20_transfer"@
        || s == "unpaid_payable_functions"@
        || s == "divide_before_multiply"@
        || s == "comparison_utilization"@
        || s == "assignment_comparisons"@
        || s == "state_variable_mutability"@
        || s == "unused_state_variables"@
        || s == "ineffectual_statements"@
        || s == "inline_assembly"@
        || s == "unchecked_casting"@
        || s == "unnecessary_pragmas"@
        || s == "missing_return"@
        || s == "redundant_state_variable_access"@
        || s == "redundant_comparisons"@
        || s == "assert_usage"@
        || s == "selfdestruct_usage"@
        || s == "unrestricted_setter_functions"@
        || s == "manipulatable_balance_usage"@
        || s == "redundant_assignments"@
        || s == "invalid_using_for_directives"@
        || s == "abi_encoding"@
        || s == "address_balance"@
        || s == "address_zero"@
        || s == "array_assignment"@
}

pub fn is_visitor_type(s: &str) -> (r: bool)
    ensures
        r == is_analysis_name(s@),
{
    str_eq(s, "no_spdx_identifier")
        || str_eq(s, "floating_solidity_version")
        || str_eq(s, "node_modules_imports")
        || str_eq(s, "redundant_imports")
        || str_eq(s, "abstract_contracts")
        || str_eq(s, "large_literals")
        || str_eq(s, "tight_variable_packing")
        || str_eq(s, "redundant_getter_function")
        || str_eq(s, "require_without_message")
        || str_eq(s, "state_variable_shadowing")
        || str_eq(s, "explicit_variable_return")
        || str_eq(s, "unused_return")
        || str_eq(s, "storage_array_loop")
        || str_eq(s, "external_calls_in_loop")
        || str_eq(s, "check_effects_interactions")
        || str_eq(s, "secure_ether_transfer")
        || str_eq(s, "safe_erc20_functions")
        || str_eq(s, "unchecked_erc20_transfer")
        || str_eq(s, "unpaid_payable_functions")
        || str_eq(s, "divide_before_multiply")
        || str_eq(s, "comparison_utilization")
        || str_eq(s, "assignment_comparisons")
        || str_eq(s, "state_variable_mutability")
        || str_eq(s, "unused_state_variables")
        || str_eq(s, "ineffectual_statements")
        || str_eq(s, "inline_assembly")
        || str_eq(s, "unchecked_casting")
        || str_eq(s, "unnecessary_pragmas")
        || str_eq(s, "missing_return")
        || str_eq(s, "redundant_state_variable_access")
        || str_eq(s, "redundant_comparisons")
        || str_eq(s, "assert_usage")
        || str_eq(s, "selfdestruct_usage")
        || str_eq(s, "unrestricted_setter_functions")
        || str_eq(s, "manipulatable_balance_usage")
        || str_eq(s, "redundant_assignments")
        || str_eq(s, "invalid_using_for_directives")
        || str_eq(s, "abi_encoding")
        || str_eq(s, "address_balance")
        || str_eq(s, "address_zero")
        || str_eq(s, "array_assignment")
}

/// An analysis is run where none is named, or where it is named.
pub open spec fn selected(names: Seq<Seq<char>>, name: Seq<char>) -> bool {
    names.len() == 0 || names.contains(name)
}

fn is_selected(names: &Vec<String>, name: &str) -> (r: bool)
    ensures
        r == selected(names@.map_values(|s: String| s@), name@),
{
    let ghost all = names@.map_values(|s: String| s@);
    if names.len() == 0 {
        return true;
    }
    let mut k: usize = 0;
    while k < names.len()
        invariant
            k <= names@.len(),
            all == names@.map_values(|s: String| s@),
            forall|j: int| 0 <= j < k ==> all[j] != name@,
        decreases names@.len() - k,
    {
        if str_eq(names[k].as_str(), name) {
            assert(all[k as int] == name@);
            return true;
        }
        assert(all[k as int] == names@[k as int]@);
        k = k + 1;
    }
    false
}

/// The line that `assignment_comparisons` prints for a `for` statement, if any.
pub open spec fn for_assign_finding(ctx: DefCtx, st: ForStatement) -> Option<(Seq<char>, Seq<char>)> {
    match st.condition {
        Some(c) => found_line(
            definition_id(*ctx.node) is Some && contains_op(c, "="@),
            st.info.src@,
            assignment_text(location_text(*ctx.contract, *ctx.node), "a for statement"@, spec_node_text(*ctx.unit, info_of(c).src@)),
        ),
        None => None,
    }
}

/// The line that `redundant_state_variable_access` prints for a `for`
/// statement, if any.
pub open spec fn for_state_finding(ctx: DefCtx, st: ForStatement) -> Option<(Seq<char>, Seq<char>)> {
    match st.condition {
        Some(c) => found_line(
            reads_state(ctx.units@, *ctx.contract, c),
            info_of(c).src@,
            storage_text(location_text(*ctx.contract, *ctx.node), "a for statement with a condition"@, *ctx.unit, c),
        ),
        None => None,
    }
}

/// The line that `assignment_comparisons` prints for a `while` statement, if any.
pub open spec fn while_assign_finding(ctx: DefCtx, st: WhileStatement) -> Option<(Seq<char>, Seq<char>)> {
    found_line(
        definition_id(*ctx.node) is Some && contains_op(st.condition, "="@),
        st.info.src@,
        assignment_text(location_text(*ctx.contract, *ctx.node), "a while statement"@, spec_node_text(*ctx.unit, info_of(st.condition).src@)),
    )
}

/// The line that `redundant_state_variable_access` prints for a `while`
/// statement, if any.
pub open spec fn while_state_finding(ctx: DefCtx, st: WhileStatement) -> Option<(Seq<char>, Seq<char>)> {
    found_line(
        reads_state(ctx.units@, *ctx.contract, st.condition),
        info_of(st.condition).src@,
        storage_text(location_text(*ctx.contract, *ctx.node), "a while statement with a condition"@, *ctx.unit, st.condition),
    )
}

/// The finding `array_assignment` files for an assignment.
pub open spec fn array_assignment_text(ctx: DefCtx, a: Assignment) -> Seq<char> {
    match (*a.left_hand_side, *a.right_hand_side) {
        (Expression::IndexAccess(l), Expression::BinaryOperation(b)) => location_text(*ctx.contract, *ctx.node)
            + " contains an inefficient array assignment which can be optimized to `"@ + spec_node_text(
            *ctx.unit,
            l.info.src@,
        ) + " "@ + b.operator@ + "= "@ + spec_node_text(*ctx.unit, info_of(*b.right_expression).src@) + ";`"@,
        _ => Seq::empty(),
    }
}

/// A finding where its analysis is selected.
pub open spec fn if_selected(selected: bool, p: Option<(Seq<char>, Seq<char>)>) -> Option<(Seq<char>, Seq<char>)> {
    if selected {
        p
    } else {
        None
    }
}

/// The line `external_calls_in_loop` prints for a reference to `id` at `src`, if any.
pub open spec fn loop_finding(
    v: Option<ExternalCallsInLoopVisitor>,
    ctx: DefCtx,
    id: Option<NodeId>,
    src: Seq<char>,
) -> Option<(Seq<char>, Seq<char>)> {
    match (v, id) {
        (Some(x), Some(i)) => found_line(
            x.calls_external(ctx, i),
            src,
            loop_call_text(location_text(*ctx.contract, *ctx.node), *ctx.unit, x.last_call->Some_0@),
        ),
        _ => None,
    }
}

/// The state `check_effects_interactions` keeps after a reference to `id`.
pub open spec fn effects_noted(
    before: Option<CheckEffectsInteractionsVisitor>,
    after: Option<CheckEffectsInteractionsVisitor>,
    ctx: DefCtx,
    id: Option<NodeId>,
) -> bool {
    match (before, after) {
        (Some(v), Some(w)) => CheckEffectsInteractionsVisitor::noted(v, w, ctx.units@, id),
        (None, None) => true,
        _ => false,
    }
}

/// The state `unused_state_variables` keeps after a reference to `id`.
pub open spec fn unused_marked(
    before: Option<UnusedStateVariablesVisitor>,
    after: Option<UnusedStateVariablesVisitor>,
    ctx: DefCtx,
    id: Option<NodeId>,
) -> bool {
    match (before, after) {
        (Some(v), Some(w)) => UnusedStateVariablesVisitor::marked(v, w, ctx, id),
        (None, None) => true,
        _ => false,
    }
}

/// The lines `tight_variable_packing` prints on entering contract `c`.
pub open spec fn packing_lines(v: Option<TightVariablePackingVisitor>, units: Seq<SourceUnit>, c: ContractDefinition) -> Seq<
    Seq<char>,
> {
    match v {
        Some(x) => only_if(
            c.kind == ContractKind::Contract && !x.checked@.contains(c.info.id),
            member_sizes(units, state_variables(c.nodes@)).1 + if is_loose(member_sizes(units, state_variables(c.nodes@)).0) {
                seq![loose_contract_line(c)]
            } else {
                Seq::empty()
            },
        ),
        None => Seq::empty(),
    }
}

/// `state_variable_mutability` has taken note of contract `id`.
pub open spec fn mutability_entered(
    before: Option<StateVariableMutabilityVisitor>,
    after: Option<StateVariableMutabilityVisitor>,
    id: NodeId,
) -> bool {
    match (before, after) {
        (Some(v), Some(w)) => {
            &&& w.contracts@.contains(id)
            &&& forall|x: NodeId| v.contracts@.contains(x) ==> #[trigger] w.contracts@.contains(x)
            &&& w.variables == v.variables
            &&& w.aliases == v.aliases
        },
        (None, None) => true,
        _ => false,
    }
}

/// `unused_state_variables` has taken note of contract `id`.
pub open spec fn unused_entered(
    before: Option<UnusedStateVariablesVisitor>,
    after: Option<UnusedStateVariablesVisitor>,
    id: NodeId,
) -> bool {
    match (before, after) {
        (Some(v), Some(w)) => w.contracts@.contains(id) && w.variables == v.variables,
        (None, None) => true,
        _ => false,
    }
}

/// `storage_array_loop` has taken note of declaration `vd`.
pub open spec fn storage_declared(
    before: Option<StorageArrayLoopVisitor>,
    after: Option<StorageArrayLoopVisitor>,
    vd: VariableDeclaration,
) -> bool {
    match (before, after) {
        (Some(v), Some(w)) => {
            &&& forall|x: NodeId| #[trigger] w.storage_arrays@.contains(x) <==> (v.storage_arrays@.contains(x) || (
                is_storage_array(vd, true) && x == vd.info.id))
            &&& w.functions == v.functions
        },
        (None, None) => true,
        _ => false,
    }
}

/// `state_variable_mutability` has taken note of the declaration `ctx` is at.
pub open spec fn mutability_declared(
    before: Option<StateVariableMutabilityVisitor>,
    after: Option<StateVariableMutabilityVisitor>,
    ctx: DefCtx,
    vd: VariableDeclaration,
) -> bool {
    match (before, after) {
        (Some(v), Some(w)) => {
            &&& StateVariableMutabilityVisitor::declared(v, w, ctx, vd)
            &&& w.wf()
            &&& w.contracts == v.contracts
            &&& forall|c: NodeId, x: NodeId| #[trigger] w.is_assigned(c, x) == v.is_assigned(c, x)
            &&& (v.contracts@.contains(ctx.contract.info.id) && *ctx.node is VariableDeclaration) ==> w.has_variable(
                ctx.contract.info.id,
                vd.info.id,
            )
            &&& forall|c: NodeId, x: NodeId| v.has_variable(c, x) ==> #[trigger] w.has_variable(c, x)
        },
        (None, None) => true,
        _ => false,
    }
}

/// `unused_state_variables` has taken note of the declaration `ctx` is at.
pub open spec fn unused_declared(
    before: Option<UnusedStateVariablesVisitor>,
    after: Option<UnusedStateVariablesVisitor>,
    ctx: DefCtx,
) -> bool {
    match (before, after) {
        (Some(v), Some(w)) => {
            &&& w.contracts == v.contracts
            &&& match *ctx.node {
                ContractDefinitionNode::VariableDeclaration(d) => {
                    &&& w.has_variable(ctx.contract.info.id, d.info.id)
                    &&& v.has_variable(ctx.contract.info.id, d.info.id) ==> w.variables == v.variables
                    &&& !v.has_variable(ctx.contract.info.id, d.info.id) ==> w.variables@ == v.variables@.push(
                        (ctx.contract.info.id, d.info.id, false),
                    )
                },
                _ => w.variables == v.variables,
            }
        },
        (None, None) => true,
        _ => false,
    }
}

/// `abi_encoding` has taken note of the type of declaration `vd`.
pub open spec fn encoding_declared(before: Option<AbiEncodingVisitor>, after: Option<AbiEncodingVisitor>, vd: VariableDeclaration) -> bool {
    match (before, after) {
        (Some(v), Some(w)) => match vd.ty {
            Some(t) => {
                &&& (exists|k: int| 0 <= k < v.declaration_types@.len() && v.declaration_types@[k].0 == vd.info.id)
                    ==> w.declaration_types == v.declaration_types
                &&& (forall|k: int| 0 <= k < v.declaration_types@.len() ==> v.declaration_types@[k].0 != vd.info.id)
                    ==> w.declaration_types@ == v.declaration_types@.push((vd.info.id, is_dynamic_array(t)))
            },
            None => w.declaration_types == v.declaration_types,
        },
        (None, None) => true,
        _ => false,
    }
}

/// The finding `abstract_contracts` files for function `f`, if any.
pub open spec fn abstract_finding(ctx: DefCtx, f: FunctionDefinition) -> Option<(Seq<char>, Seq<char>)> {
    found_line(
        spec_internal_constructor(*ctx.contract, f),
        f.info.src@,
        location_text(*ctx.contract, *ctx.node) + " is marked "@ + visibility_text(f.visibility) + " instead of marking `"@
            + ctx.contract.name@ + "` as abstract"@,
    )
}

/// The finding `unrestricted_setter_functions` files for function `f`, if any.
pub open spec fn setter_finding(ctx: DefCtx, f: FunctionDefinition) -> Option<(Seq<char>, Seq<char>)> {
    found_line(spec_unrestricted_setter(f), f.info.src@, location_text(*ctx.contract, *ctx.node) + " is an unprotected setter function"@)
}

/// The line `redundant_getter_function` prints for function `f`, if any.
pub open spec fn getter_lines(selected: bool, ctx: DefCtx, f: FunctionDefinition) -> Seq<Seq<char>> {
    match getter_target(*ctx.contract, f) {
        Some(v) => only_if(selected, seq![getter_line(*ctx.contract, f, v)]),
        None => Seq::empty(),
    }
}

/// The state the analyses keep once they have entered function `f`.
pub open spec fn function_entered(before: AstVisitorData, after: AstVisitorData, f: FunctionDefinition) -> bool {
    &&& match (before.storage_array_loop, after.storage_array_loop) {
        (Some(v), Some(w)) => {
            &&& forall|x: NodeId| #[trigger] w.storage_arrays@.contains(x) <==> (v.storage_arrays@.contains(x) || exists|k: int|
                0 <= k < f.parameters@.len() && is_storage_array(f.parameters@[k], false) && f.parameters@[k].info.id == x)
            &&& forall|id: NodeId| #[trigger] w.loops(id) == v.loops(id)
        },
        (None, None) => true,
        _ => false,
    }
    &&& match (before.check_effects_interactions, after.check_effects_interactions) {
        (Some(v), Some(w)) => !w.makes_external_call && !w.makes_post_external_call_assignment && w.bindings == v.bindings,
        (None, None) => true,
        _ => false,
    }
    &&& match (before.unchecked_erc20_transfer, after.unchecked_erc20_transfer) {
        (Some(v), Some(w)) => {
            &&& w.verified() == v.verified()
            &&& v.count_of(f.info.id) is None ==> w.count_of(f.info.id) == Some(0u64)
            &&& forall|id: NodeId| id != f.info.id || v.count_of(id) is Some ==> w.count_of(id) == v.count_of(id)
        },
        (None, None) => true,
        _ => false,
    }
    &&& match (before.missing_return, after.missing_return) {
        (Some(v), Some(w)) => {
            &&& w.assigned == v.assigned
            &&& w.functions@.to_set() == if f.return_parameters@.len() > 0 && f.body is Some {
                v.functions@.to_set().insert(f.info.id)
            } else {
                v.functions@.to_set()
            }
        },
        (None, None) => true,
        _ => false,
    }
}

/// The line `storage_array_loop` prints on leaving function `f`, if any.
pub open spec fn storage_loop_finding(v: Option<StorageArrayLoopVisitor>, ctx: DefCtx, f: FunctionDefinition) -> Option<
    (Seq<char>, Seq<char>),
> {
    match v {
        Some(x) => found_line(x.loops(f.info.id), f.info.src@, loop_text(*ctx.contract, f)),
        None => None,
    }
}

/// The line `check_effects_interactions` prints on leaving function `f`, if any.
pub open spec fn effects_finding(v: Option<CheckEffectsInteractionsVisitor>, ctx: DefCtx, f: FunctionDefinition) -> Option<
    (Seq<char>, Seq<char>),
> {
    match v {
        Some(x) => found_line(
            f.kind != FunctionKind::Constructor && x.makes_external_call && x.makes_post_external_call_assignment,
            f.info.src@,
            pattern_text(*ctx.contract, f),
        ),
        None => None,
    }
}

/// The line `unchecked_erc20_transfer` prints on leaving function `f`, if any.
pub open spec fn erc20_finding(v: Option<UncheckedERC20TransferVisitor>, ctx: DefCtx, f: FunctionDefinition) -> Option<
    (Seq<char>, Seq<char>),
> {
    match v {
        Some(x) => found_line(
            x.count_of(f.info.id) matches Some(c) && c > 0,
            f.info.src@,
            unchecked_text(location_text(*ctx.contract, *ctx.node), x.count_of(f.info.id)->Some_0),
        ),
        None => None,
    }
}

/// The line `missing_return` prints on leaving function `f`, if any.
pub open spec fn missing_lines(v: Option<MissingReturnVisitor>, ctx: DefCtx, f: FunctionDefinition) -> Seq<Seq<char>> {
    match v {
        Some(x) => only_if(
            x.functions@.contains(f.info.id) && misses_return(f, x.assigned_set()),
            seq![missing_return_line(*ctx.contract, f)],
        ),
        None => Seq::empty(),
    }
}

/// What `state_variable_mutability` files on leaving contract `c`: nothing
/// where it is not selected.
pub open spec fn mutability_result(v: Option<StateVariableMutabilityVisitor>, unit: SourceUnit, c: ContractDefinition) -> Result<
    Seq<EntryView>,
    AnalysisError,
> {
    match v {
        Some(x) => mutability_entries(unit, c, x.variables@),
        None => Ok(Seq::empty()),
    }
}

/// What `unused_state_variables` prints on leaving contract `c`: nothing where
/// it is not selected.
pub open spec fn unreferenced_result(v: Option<UnusedStateVariablesVisitor>, unit: SourceUnit, c: ContractDefinition) -> Result<
    Seq<Seq<char>>,
    AnalysisError,
> {
    match v {
        Some(x) => unreferenced_lines(unit, c, x.variables@),
        None => Ok(Seq::empty()),
    }
}

/// The finding `unused_return` files for statement `s`, if any.
pub open spec fn dropped_finding(ctx: DefCtx, s: Statement) -> Option<(Seq<char>, Seq<char>)> {
    found_line(
        dropped_return(ctx.units@, s) is Some,
        call_src(s),
        dropped_text(*ctx.contract, *ctx.node, dropped_return(ctx.units@, s)->Some_0.0, dropped_return(ctx.units@, s)->Some_0.1),
    )
}

/// The finding `ineffectual_statements` files for statement `s`, if any.
pub open spec fn ineffectual_finding(ctx: DefCtx, s: Statement) -> Option<(Seq<char>, Seq<char>)> {
    match s {
        Statement::ExpressionStatement { expression } => found_line(
            ineffectual_kind(expression) is Some,
            info_of(expression).src@,
            location_text(*ctx.contract, *ctx.node) + " contains an ineffectual "@ + ineffectual_kind(expression)->Some_0
                + " statement: `"@ + spec_node_text(*ctx.unit, info_of(expression).src@) + "`"@,
        ),
        _ => None,
    }
}

/// Where `selfdestruct_usage` places its finding for statement `s`.
pub open spec fn selfdestruct_src(s: Statement) -> Seq<char> {
    match s {
        Statement::ExpressionStatement { expression: Expression::FunctionCall(f) } => f.info.src@,
        _ => Seq::empty(),
    }
}

/// The finding `selfdestruct_usage` files for statement `s`, if any.
pub open spec fn selfdestruct_finding(ctx: DefCtx, s: Statement) -> Option<(Seq<char>, Seq<char>)> {
    found_line(
        spec_selfdestruct_call(s),
        selfdestruct_src(s),
        location_text(*ctx.contract, *ctx.node) + " contains `selfdestruct` usage"@,
    )
}

/// The warnings `check_effects_interactions` prints for statement `s`.
pub open spec fn effects_warnings(selected: bool, ctx: DefCtx, s: Statement) -> Seq<Seq<char>> {
    match s {
        Statement::VariableDeclarationStatement(d) => match d.initial_value {
            Some(e) => only_if(
                selected && d.declarations@.len() > 1,
                Seq::new(
                    hierarchy_count(ctx.units@, *ctx.contract, assigned_vars(ctx.units@, *ctx.contract, e)),
                    |i: int| tuple_warning(assigned_vars(ctx.units@, *ctx.contract, e)),
                ),
            ),
            None => Seq::empty(),
        },
        _ => Seq::empty(),
    }
}

/// The state `check_effects_interactions` keeps after statement `s`.
pub open spec fn effects_bound(
    before: Option<CheckEffectsInteractionsVisitor>,
    after: Option<CheckEffectsInteractionsVisitor>,
    ctx: DefCtx,
    s: Statement,
) -> bool {
    match (before, after) {
        (Some(v), Some(w)) => {
            &&& w.makes_external_call == v.makes_external_call
            &&& w.makes_post_external_call_assignment == v.makes_post_external_call_assignment
            &&& match s {
                Statement::VariableDeclarationStatement(d) => match d.initial_value {
                    Some(e) => if d.declarations@.len() == 1 && d.declarations@[0] is Some {
                        forall|b: (NodeId, NodeId)| #[trigger] w.bindings@.contains(b) <==> (v.bindings@.contains(b) || (b.1
                            == d.declarations@[0]->Some_0.info.id && assigned_vars(ctx.units@, *ctx.contract, e).contains(b.0)
                            && in_hierarchy(ctx.units@, *ctx.contract, b.0)))
                    } else {
                        w.bindings == v.bindings
                    },
                    None => w == v,
                },
                _ => w == v,
            }
        },
        (None, None) => true,
        _ => false,
    }
}

/// The finding `require_without_message` files for a call, if any.
pub open spec fn require_finding(ctx: DefCtx, call: FunctionCall) -> Option<(Seq<char>, Seq<char>)> {
    found_line(
        spec_require_without_message(call),
        call.info.src@,
        location_text(*ctx.contract, *ctx.node) + " contains a requirement without a message: `"@ + spec_node_text(
            *ctx.unit,
            call.info.src@,
        ) + "`"@,
    )
}

/// The line `secure_ether_transfer` prints for a call, if any.
pub open spec fn ether_finding(ctx: DefCtx, call: FunctionCall) -> Option<(Seq<char>, Seq<char>)> {
    found_line(
        spec_raw_transfer(*call.expression),
        call.info.src@,
        location_text(*ctx.contract, *ctx.node) + " ignores the Secure-Ether-Transfer pattern: `"@ + spec_node_text(
            *ctx.unit,
            call.info.src@,
        ) + "`"@,
    )
}

/// The finding `unpaid_payable_functions` files for a call, if any.
pub open spec fn payable_finding(ctx: DefCtx, call: FunctionCall) -> Option<(Seq<char>, Seq<char>)> {
    found_line(
        spec_calls_payable(ctx.units@, call),
        call.info.src@,
        location_text(*ctx.contract, *ctx.node) + " calls a payable function without paying: `"@ + spec_node_text(
            *ctx.unit,
            call.info.src@,
        ) + "`"@,
    )
}

/// Whether `safe_erc20_functions`, where selected, files anything for a call.
pub open spec fn safe_erc20_listed(selected: bool, ctx: DefCtx, call: FunctionCall) -> bool {
    selected && ctx.contract.name@ != "SafeERC20"@ && erc20_scan(ctx.units@, *ctx.contract, *ctx.node, refs(*call.expression)).0.len()
        > 0
}

/// The findings `safe_erc20_functions` files for a call.
pub open spec fn safe_erc20_entries(selected: bool, ctx: DefCtx, call: FunctionCall) -> Seq<EntryView> {
    only_if(
        safe_erc20_listed(selected, ctx, call),
        entries_at(
            erc20_scan(ctx.units@, *ctx.contract, *ctx.node, refs(*call.expression)).0,
            spec_source_line(*ctx.unit, call.info.src@)->Ok_0,
        ),
    )
}

/// Whether the lines the first half of the visits of a call needs can be found.
pub open spec fn call_first_ok(d: AstVisitorData, ctx: DefCtx, call: FunctionCall) -> bool {
    &&& line_ok(*ctx.unit, if_selected(d.require_without_message is Some, require_finding(ctx, call)))
    &&& line_ok(*ctx.unit, if_selected(d.secure_ether_transfer is Some, ether_finding(ctx, call)))
    &&& (safe_erc20_listed(d.safe_erc20_functions is Some, ctx, call) ==> spec_source_line(*ctx.unit, call.info.src@) is Ok)
    &&& line_ok(*ctx.unit, if_selected(d.unpaid_payable_functions is Some, payable_finding(ctx, call)))
}

/// The findings the first half of the visits of a call files.
pub open spec fn call_first_entries(d: AstVisitorData, ctx: DefCtx, call: FunctionCall) -> Seq<EntryView> {
    opt_entry(*ctx.unit, if_selected(d.require_without_message is Some, require_finding(ctx, call))) + safe_erc20_entries(
        d.safe_erc20_functions is Some,
        ctx,
        call,
    ) + opt_entry(*ctx.unit, if_selected(d.unpaid_payable_functions is Some, payable_finding(ctx, call)))
}

/// The lines the first half of the visits of a call prints.
pub open spec fn call_first_lines(d: AstVisitorData, ctx: DefCtx, call: FunctionCall) -> Seq<Seq<char>> {
    opt_line(*ctx.unit, if_selected(d.secure_ether_transfer is Some, ether_finding(ctx, call)))
}

/// The state the first half of the visits of a call leaves.
pub open spec fn call_first_state(
    before: AstVisitorData,
    after: AstVisitorData,
    ctx: DefCtx,
    blocks: Seq<NodeId>,
    call: FunctionCall,
) -> bool {
    &&& match (before.external_calls_in_loop, after.external_calls_in_loop) {
        (Some(v), Some(w)) => w.loop_ids == v.loop_ids && (w.last_call matches Some(l) && l@ == call.info.src@),
        (None, None) => true,
        _ => false,
    }
    &&& match (before.unchecked_erc20_transfer, after.unchecked_erc20_transfer) {
        (Some(v), Some(w)) => match definition_id(*ctx.node) {
            None => w == v,
            Some(def) => {
                &&& forall|id: NodeId| id != def ==> w.count_of(id) == v.count_of(id)
                &&& match v.count_of(def) {
                    Some(c) => w.count_of(def) == Some(
                        saturating(
                            c as int,
                            transfer_count(ctx.units@, refs(*call.expression)) * transfer_increment(
                                v.verified(),
                                blocks,
                                call.arguments@,
                            ),
                        ),
                    ),
                    None => w.count_of(def) is None,
                }
                &&& w.verified() == if blocks.len() > 0 && ident_named(*call.expression, "require"@) && call.arguments@.len() > 0 {
                    v.verified().union(
                        Set::new(|p: (NodeId, NodeId)| p.0 == blocks.last() && zero_checked(call.arguments@[0]).contains(p.1)),
                    )
                } else {
                    v.verified()
                }
            },
        },
        (None, None) => true,
        _ => false,
    }
}

/// The line `assignment_comparisons` prints for a call, if any.
pub open spec fn comparison_call_finding(ctx: DefCtx, call: FunctionCall) -> Option<(Seq<char>, Seq<char>)> {
    found_line(
        definition_id(*ctx.node) is Some && checking_call_name(call) is Some && call.arguments@.len() > 0 && contains_op(
            call.arguments@[0],
            "="@,
        ),
        call.info.src@,
        assignment_text(
            location_text(*ctx.contract, *ctx.node),
            "a call to `"@ + checking_call_name(call)->Some_0 + "`"@,
            spec_node_text(*ctx.unit, call.info.src@),
        ),
    )
}

/// The line `unchecked_casting` prints for a call, if any.
pub open spec fn cast_finding(ctx: DefCtx, call: FunctionCall) -> Option<(Seq<char>, Seq<char>)> {
    found_line(
        definition_id(*ctx.node) is Some && is_redundant_cast(call),
        call.info.src@,
        location_text(*ctx.contract, *ctx.node) + " contains a redundant cast: `"@ + spec_node_text(*ctx.unit, call.info.src@)
            + "`"@,
    )
}

/// Whether `assert_usage` files a call: an `assert` in a definition it has not
/// reported yet.
pub open spec fn assert_fresh(v: AssertUsageVisitor, ctx: DefCtx, call: FunctionCall) -> bool {
    definition_id(*ctx.node) matches Some(id) && ident_named(*call.expression, "assert"@) && !v.reported_definitions@.contains(id)
}

/// The finding `assert_usage` files for a call, if any.
pub open spec fn assert_finding(v: Option<AssertUsageVisitor>, ctx: DefCtx, call: FunctionCall) -> Option<(Seq<char>, Seq<char>)> {
    match v {
        Some(x) => found_line(
            assert_fresh(x, ctx, call),
            call.info.src@,
            location_text(*ctx.contract, *ctx.node) + " contains assert usage: `"@ + spec_node_text(*ctx.unit, call.info.src@)
                + "`"@,
        ),
        None => None,
    }
}

/// The finding `manipulatable_balance_usage` files for a call, if any.
pub open spec fn balance_call_finding(ctx: DefCtx, call: FunctionCall) -> Option<(Seq<char>, Seq<char>)> {
    found_line(
        spec_own_token_balance(call),
        call.info.src@,
        location_text(*ctx.contract, *ctx.node) + " contains manipulatable balance usage: `"@ + spec_node_text(
            *ctx.unit,
            call.info.src@,
        ) + "`"@,
    )
}

/// The line `abi_encoding` prints for a call, if any.
pub open spec fn encoding_finding(v: Option<AbiEncodingVisitor>, ctx: DefCtx, call: FunctionCall) -> Option<(Seq<char>, Seq<char>)> {
    match v {
        Some(x) => found_line(
            is_encode_packed(call) && call.arguments@.len() >= 2 && x.any_dynamic(call.arguments@),
            call.info.src@,
            location_text(*ctx.contract, *ctx.node) + " contains the potential for hash collisions: `"@ + spec_node_text(
                *ctx.unit,
                call.info.src@,
            ) + "`"@,
        ),
        None => None,
    }
}

/// Whether the lines the second half of the visits of a call needs can be found.
pub open spec fn call_rest_ok(d: AstVisitorData, ctx: DefCtx, call: FunctionCall) -> bool {
    &&& line_ok(*ctx.unit, if_selected(d.assignment_comparisons is Some, comparison_call_finding(ctx, call)))
    &&& line_ok(*ctx.unit, if_selected(d.unchecked_casting is Some, cast_finding(ctx, call)))
    &&& line_ok(*ctx.unit, assert_finding(d.assert_usage, ctx, call))
    &&& line_ok(*ctx.unit, if_selected(d.manipulatable_balance_usage is Some, balance_call_finding(ctx, call)))
    &&& line_ok(*ctx.unit, encoding_finding(d.abi_encoding, ctx, call))
}

/// The lines the second half of the visits of a call prints.
pub open spec fn call_rest_lines(d: AstVisitorData, ctx: DefCtx, call: FunctionCall) -> Seq<Seq<char>> {
    opt_line(*ctx.unit, if_selected(d.assignment_comparisons is Some, comparison_call_finding(ctx, call))) + opt_line(
        *ctx.unit,
        if_selected(d.unchecked_casting is Some, cast_finding(ctx, call)),
    ) + opt_line(*ctx.unit, encoding_finding(d.abi_encoding, ctx, call))
}

/// The findings the second half of the visits of a call files.
pub open spec fn call_rest_entries(d: AstVisitorData, ctx: DefCtx, call: FunctionCall) -> Seq<EntryView> {
    opt_entry(*ctx.unit, assert_finding(d.assert_usage, ctx, call)) + opt_entry(
        *ctx.unit,
        if_selected(d.manipulatable_balance_usage is Some, balance_call_finding(ctx, call)),
    )
}

/// The state the second half of the visits of a call leaves.
pub open spec fn call_rest_state(before: AstVisitorData, after: AstVisitorData, ctx: DefCtx, call: FunctionCall) -> bool {
    &&& match (before.state_variable_mutability, after.state_variable_mutability) {
        (Some(v), Some(w)) => {
            &&& w.contracts == v.contracts
            &&& w.aliases == v.aliases
            &&& forall|c: NodeId, x: NodeId| #[trigger] w.has_variable(c, x) == v.has_variable(c, x)
            &&& forall|c: NodeId, x: NodeId| #[trigger] w.is_assigned(c, x) == (v.is_assigned(c, x) || (!in_constructor(*ctx.node)
                && c == ctx.contract.info.id && v.has_variable(c, x) && (*call.expression matches Expression::MemberAccess(m)
                && m.referenced_declaration is None && (m.member_name@ == "push"@ || m.member_name@ == "pop"@) && assigned_vars(
                ctx.units@,
                *ctx.contract,
                *m.expression,
            ).contains(x))))
        },
        (None, None) => true,
        _ => false,
    }
    &&& match (before.assert_usage, after.assert_usage) {
        (Some(v), Some(w)) => w.reported_definitions@ == if assert_fresh(v, ctx, call) {
            v.reported_definitions@.push(definition_id(*ctx.node)->Some_0)
        } else {
            v.reported_definitions@
        },
        (None, None) => true,
        _ => false,
    }
}

/// `after` begins with what `before` held followed by `entries` under `path`
/// and by the printed lines `lines`.
pub open spec fn begins_with(
    before: Output,
    after: Output,
    path: Seq<char>,
    entries: Seq<EntryView>,
    lines: Seq<Seq<char>>,
) -> bool {
    &&& (before.report.entries_of(path) + entries).is_prefix_of(after.report.entries_of(path))
    &&& (printed_texts(before) + lines).is_prefix_of(printed_texts(after))
}

/// A step that adds exactly `entries` and `lines` begins what follows it with them.
proof fn lemma_begins_exactly(before: Output, mid: Output, path: Seq<char>, entries: Seq<EntryView>, lines: Seq<Seq<char>>)
    requires
        mid.report.entries_of(path) =~= before.report.entries_of(path) + entries,
        printed_texts(mid) =~= printed_texts(before) + lines,
    ensures
        begins_with(before, mid, path, entries, lines),
        mid.report.entries_of(path) == before.report.entries_of(path) + entries,
        printed_texts(mid) == printed_texts(before) + lines,
{
    assert(mid.report.entries_of(path) =~= mid.report.entries_of(path).subrange(0, mid.report.entries_of(path).len() as int));
    assert(printed_texts(mid) =~= printed_texts(mid).subrange(0, printed_texts(mid).len() as int));
}

/// Whether the lines the visits of statement `s` itself need can be found.
pub open spec fn statement_ok(d: AstVisitorData, ctx: DefCtx, s: Statement) -> bool {
    &&& line_ok(*ctx.unit, if_selected(d.unused_return is Some, dropped_finding(ctx, s)))
    &&& line_ok(*ctx.unit, if_selected(d.ineffectual_statements is Some, ineffectual_finding(ctx, s)))
    &&& line_ok(*ctx.unit, if_selected(d.selfdestruct_usage is Some, selfdestruct_finding(ctx, s)))
}

/// The findings the visits of statement `s` itself file.
pub open spec fn statement_entries(d: AstVisitorData, ctx: DefCtx, s: Statement) -> Seq<EntryView> {
    opt_entry(*ctx.unit, if_selected(d.unused_return is Some, dropped_finding(ctx, s))) + opt_entry(
        *ctx.unit,
        if_selected(d.ineffectual_statements is Some, ineffectual_finding(ctx, s)),
    ) + opt_entry(*ctx.unit, if_selected(d.selfdestruct_usage is Some, selfdestruct_finding(ctx, s)))
}

/// Whether a literal is one `large_literals` reports.
pub open spec fn is_large_literal(l: Literal) -> bool {
    l.value matches Some(v) && spec_is_large(v@)
}

/// The finding `large_literals` files for a literal, if any.
pub open spec fn literal_finding(ctx: DefCtx, l: Literal) -> Option<(Seq<char>, Seq<char>)> {
    found_line(
        is_large_literal(l),
        l.info.src@,
        location_text(*ctx.contract, *ctx.node) + " contains a large literal, which may be difficult to read: `"@
            + spec_node_text(*ctx.unit, l.info.src@) + "`"@,
    )
}

/// The line `assignment_comparisons` prints for a conditional expression, if any.
pub open spec fn conditional_finding(ctx: DefCtx, c: Conditional) -> Option<(Seq<char>, Seq<char>)> {
    found_line(
        definition_id(*ctx.node) is Some && contains_op(*c.condition, "="@),
        c.info.src@,
        assignment_text(location_text(*ctx.contract, *ctx.node), "a conditional expression"@, spec_node_text(*ctx.unit, c.info.src@)),
    )
}

/// The line `secure_ether_transfer` prints for a call with options, if any.
pub open spec fn ether_options_finding(ctx: DefCtx, call: FunctionCallOptions) -> Option<(Seq<char>, Seq<char>)> {
    found_line(
        spec_raw_transfer(*call.expression),
        call.info.src@,
        location_text(*ctx.contract, *ctx.node) + " ignores the Secure-Ether-Transfer pattern: `"@ + spec_node_text(
            *ctx.unit,
            call.info.src@,
        ) + "`"@,
    )
}

/// Whether any of `divide_before_multiply`, `redundant_comparisons` and
/// `address_zero` finds something in a binary operation.
pub open spec fn binary_found(d: AstVisitorData, ctx: DefCtx, b: BinaryOperation) -> bool {
    (d.divide_before_multiply is Some && spec_divide_before_multiply(b)) || (d.redundant_comparisons is Some && definition_id(
        *ctx.node,
    ) is Some && is_redundant_comparison(b)) || (d.address_zero is Some && spec_compares_address_zero(b))
}

/// The finding `manipulatable_balance_usage` files for a member access, if any.
pub open spec fn balance_member_finding(d: AstVisitorData, ctx: DefCtx, m: MemberAccess) -> Option<(Seq<char>, Seq<char>)> {
    if_selected(
        d.manipulatable_balance_usage is Some,
        found_line(
            spec_own_balance(m),
            m.info.src@,
            location_text(*ctx.contract, *ctx.node) + " contains manipulatable balance usage: `"@ + spec_node_text(
                *ctx.unit,
                m.info.src@,
            ) + "`"@,
        ),
    )
}

/// The finding `address_balance` files for a member access, if any.
pub open spec fn address_balance_finding(d: AstVisitorData, ctx: DefCtx, m: MemberAccess) -> Option<(Seq<char>, Seq<char>)> {
    if_selected(
        d.address_balance is Some,
        found_line(
            spec_balance_of(m) is Some,
            m.info.src@,
            location_text(*ctx.contract, *ctx.node) + " contains `"@ + spec_node_text(*ctx.unit, m.info.src@)
                + "` usage, which can be optimized with assembly: `"@ + (if spec_balance_of(m) == Some(true) {
                "assembly { bal := balance(addr); }"@
            } else {
                "assembly { bal := selfbalance(); }"@
            }) + "`"@,
        ),
    )
}

/// Whether the lines the visits of expression `e` itself need can be found.
#[verifier::opaque]
pub open spec fn expression_ok(d: AstVisitorData, ctx: DefCtx, e: Expression) -> bool {
    match e {
        Expression::Literal(l) => line_ok(*ctx.unit, if_selected(d.large_literals is Some, literal_finding(ctx, l))),
        Expression::Identifier(id) => line_ok(
            *ctx.unit,
            loop_finding(d.external_calls_in_loop, ctx, Some(id.referenced_declaration), id.info.src@),
        ),
        Expression::BinaryOperation(b) => binary_found(d, ctx, b) ==> spec_source_line(*ctx.unit, b.info.src@) is Ok,
        Expression::Conditional(c) => line_ok(*ctx.unit, if_selected(d.assignment_comparisons is Some, conditional_finding(ctx, c))),
        Expression::Assignment(a) => {
            &&& (d.redundant_assignments is Some && repeat_count(a) > 0) ==> spec_source_line(*ctx.unit, a.info.src@) is Ok
            &&& line_ok(
                *ctx.unit,
                if_selected(
                    d.array_assignment is Some,
                    found_line(spec_inefficient_array_assignment(a), a.info.src@, array_assignment_text(ctx, a)),
                ),
            )
        },
        Expression::FunctionCall(call) => call_first_ok(d, ctx, call) && call_rest_ok(d, ctx, call),
        Expression::FunctionCallOptions(call) => line_ok(
            *ctx.unit,
            if_selected(d.secure_ether_transfer is Some, ether_options_finding(ctx, call)),
        ),
        Expression::MemberAccess(m) => {
            &&& line_ok(*ctx.unit, loop_finding(d.external_calls_in_loop, ctx, m.referenced_declaration, m.info.src@))
            &&& line_ok(*ctx.unit, balance_member_finding(d, ctx, m))
            &&& line_ok(*ctx.unit, address_balance_finding(d, ctx, m))
        },
        _ => true,
    }
}

/// The findings the visits of expression `e` itself file.
#[verifier::opaque]
pub open spec fn expression_entries(d: AstVisitorData, ctx: DefCtx, e: Expression) -> Seq<EntryView> {
    match e {
        Expression::Literal(l) => opt_entry(*ctx.unit, if_selected(d.large_literals is Some, literal_finding(ctx, l))),
        Expression::BinaryOperation(b) => only_if(
            d.divide_before_multiply is Some && spec_divide_before_multiply(b),
            seq![
                (
                    Some(spec_source_line(*ctx.unit, b.info.src@)->Ok_0 as usize),
                    location_text(*ctx.contract, *ctx.node) + " performs a multiplication on the result of a division"@,
                ),
            ],
        ),
        Expression::Assignment(a) => only_if(
            d.redundant_assignments is Some && repeat_count(a) > 0,
            Seq::new(
                repeat_count(a),
                |i: int| (
                    Some(spec_source_line(*ctx.unit, a.info.src@)->Ok_0 as usize),
                    location_text(*ctx.contract, *ctx.node) + " contains a redundant assignment: `"@ + spec_node_text(
                        *ctx.unit,
                        a.info.src@,
                    ) + "`"@,
                ),
            ),
        ) + opt_entry(
            *ctx.unit,
            if_selected(
                d.array_assignment is Some,
                found_line(spec_inefficient_array_assignment(a), a.info.src@, array_assignment_text(ctx, a)),
            ),
        ),
        Expression::FunctionCall(call) => call_first_entries(d, ctx, call) + call_rest_entries(d, ctx, call),
        Expression::MemberAccess(m) => opt_entry(*ctx.unit, balance_member_finding(d, ctx, m)) + opt_entry(
            *ctx.unit,
            address_balance_finding(d, ctx, m),
        ),
        _ => Seq::empty(),
    }
}

/// The lines the visits of expression `e` itself print.
#[verifier::opaque]
pub open spec fn expression_lines(d: AstVisitorData, ctx: DefCtx, e: Expression) -> Seq<Seq<char>> {
    match e {
        Expression::Identifier(id) => opt_line(
            *ctx.unit,
            loop_finding(d.external_calls_in_loop, ctx, Some(id.referenced_declaration), id.info.src@),
        ),
        Expression::BinaryOperation(b) => only_if(
            d.redundant_comparisons is Some && definition_id(*ctx.node) is Some && is_redundant_comparison(b),
            seq![
                line_text(
                    *ctx.unit,
                    b.info.src@,
                    location_text(*ctx.contract, *ctx.node) + " contains a redundant comparison: `"@ + spec_node_text(
                        *ctx.unit,
                        b.info.src@,
                    ) + "`"@,
                ),
            ],
        ) + only_if(
            d.address_zero is Some && spec_compares_address_zero(b),
            seq![
                line_text(
                    *ctx.unit,
                    b.info.src@,
                    location_text(*ctx.contract, *ctx.node) + " contains `"@ + spec_node_text(*ctx.unit, b.info.src@)
                        + "` usage, which can be optimized with assembly: `assembly { if iszero(addr) { ... } }`"@,
                ),
            ],
        ),
        Expression::Assignment(a) => effects_assignment_lines(d.check_effects_interactions, ctx, a),
        Expression::Conditional(c) => opt_line(*ctx.unit, if_selected(d.assignment_comparisons is Some, conditional_finding(ctx, c))),
        Expression::FunctionCall(call) => call_first_lines(d, ctx, call) + call_rest_lines(d, ctx, call),
        Expression::FunctionCallOptions(call) => opt_line(
            *ctx.unit,
            if_selected(d.secure_ether_transfer is Some, ether_options_finding(ctx, call)),
        ),
        Expression::MemberAccess(m) => opt_line(
            *ctx.unit,
            loop_finding(d.external_calls_in_loop, ctx, m.referenced_declaration, m.info.src@),
        ),
        _ => Seq::empty(),
    }
}

/// The finding `inline_assembly` files for an inline assembly statement, if any.
pub open spec fn assembly_entries(d: AstVisitorData, ctx: DefCtx, a: InlineAssembly) -> Seq<EntryView> {
    only_if(
        d.inline_assembly is Some,
        seq![
            (
                Some(spec_source_line(*ctx.unit, a.info.src@)->Ok_0 as usize),
                location_text(*ctx.contract, *ctx.node) + " contains inline assembly usage"@,
            ),
        ],
    )
}

/// The finding `no_spdx_identifier` files for a source unit, if any.
pub open spec fn spdx_entries(selected: bool, unit: SourceUnit) -> Seq<EntryView> {
    only_if(
        selected && unit.license is None,
        seq![(None, "\tSPDX license identifier not provided in source file; Consider adding one before deployment"@)],
    )
}

/// The state `state_variable_mutability` keeps after a unary operation.
pub open spec fn unary_marked(
    before: Option<StateVariableMutabilityVisitor>,
    after: Option<StateVariableMutabilityVisitor>,
    ctx: DefCtx,
    u: UnaryOperation,
) -> bool {
    match (before, after) {
        (Some(v), Some(w)) => {
            &&& w.wf()
            &&& w.contracts == v.contracts
            &&& w.aliases == v.aliases
            &&& forall|c: NodeId, x: NodeId| #[trigger] w.has_variable(c, x) == v.has_variable(c, x)
            &&& forall|c: NodeId, x: NodeId| #[trigger] w.is_assigned(c, x) == (v.is_assigned(c, x) || (!in_constructor(*ctx.node)
                && c == ctx.contract.info.id && v.has_variable(c, x) && assigned_vars(ctx.units@, *ctx.contract, *u.sub_expression).contains(x)))
        },
        (None, None) => true,
        _ => false,
    }
}

/// The state the visits of expression `e` itself leave: the analyses that
/// look at `e` keep what their visits state, every other analysis keeps its
/// state.
pub open spec fn expression_state(d: AstVisitorData, d2: AstVisitorData, ctx: DefCtx, blocks: Seq<NodeId>, e: Expression, ok: bool) -> bool {
    match e {
        Expression::Identifier(id) => {
            &&& d2 == (AstVisitorData {
                check_effects_interactions: d2.check_effects_interactions,
                unused_state_variables: d2.unused_state_variables,
                ..d
            })
            &&& ok ==> effects_noted(d.check_effects_interactions, d2.check_effects_interactions, ctx, Some(id.referenced_declaration))
            &&& ok ==> unused_marked(d.unused_state_variables, d2.unused_state_variables, ctx, Some(id.referenced_declaration))
        },
        Expression::MemberAccess(m) => {
            &&& d2 == (AstVisitorData {
                check_effects_interactions: d2.check_effects_interactions,
                unused_state_variables: d2.unused_state_variables,
                ..d
            })
            &&& ok ==> effects_noted(d.check_effects_interactions, d2.check_effects_interactions, ctx, m.referenced_declaration)
            &&& ok ==> unused_marked(d.unused_state_variables, d2.unused_state_variables, ctx, m.referenced_declaration)
        },
        Expression::UnaryOperation(u) => {
            &&& d2 == (AstVisitorData { state_variable_mutability: d2.state_variable_mutability, ..d })
            &&& unary_marked(d.state_variable_mutability, d2.state_variable_mutability, ctx, u)
        },
        Expression::Assignment(a) => {
            &&& d2 == (AstVisitorData {
                check_effects_interactions: d2.check_effects_interactions,
                state_variable_mutability: d2.state_variable_mutability,
                missing_return: d2.missing_return,
                ..d
            })
            &&& match (d.check_effects_interactions, d2.check_effects_interactions) {
                (Some(v), Some(w)) => CheckEffectsInteractionsVisitor::noted_write(v, w, ctx, a),
                (None, None) => true,
                _ => false,
            }
            &&& match (d.state_variable_mutability, d2.state_variable_mutability) {
                (Some(v), Some(w)) => StateVariableMutabilityVisitor::marked_assignment(v, w, ctx, a),
                (None, None) => true,
                _ => false,
            }
            &&& match (d.missing_return, d2.missing_return) {
                (Some(v), Some(w)) => MissingReturnVisitor::recorded_assignment(v, w, ctx, a),
                (None, None) => true,
                _ => false,
            }
        },
        Expression::FunctionCall(call) => {
            &&& d2 == (AstVisitorData {
                external_calls_in_loop: d2.external_calls_in_loop,
                unchecked_erc20_transfer: d2.unchecked_erc20_transfer,
                state_variable_mutability: d2.state_variable_mutability,
                assert_usage: d2.assert_usage,
                ..d
            })
            &&& ok ==> call_first_state(d, d2, ctx, blocks, call) && call_rest_state(d, d2, ctx, call)
        },
        _ => d2 == d,
    }
}

/// What the visits of expression `e` itself add to the output: exactly its
/// findings.
pub open spec fn expression_output(d: AstVisitorData, o: Output, o2: Output, ctx: DefCtx, e: Expression) -> bool {
    &&& o2.report.entries_of(unit_path(*ctx.unit)) == o.report.entries_of(unit_path(*ctx.unit)) + expression_entries(d, ctx, e)
    &&& printed_texts(o2) == printed_texts(o) + expression_lines(d, ctx, e)
}

/// What the visits of expression `e` itself do, as one step of the walk.
pub open spec fn expression_visited(
    d: AstVisitorData,
    o: Output,
    d2: AstVisitorData,
    o2: Output,
    ctx: DefCtx,
    blocks: Seq<NodeId>,
    e: Expression,
    ok: bool,
) -> bool {
    &&& d2.wf()
    &&& o2.wf()
    &&& o.extends(o2)
    &&& only_under(o, o2, unit_path(*ctx.unit))
    &&& expression_state(d, d2, ctx, blocks, e, ok)
    &&& ok <==> expression_ok(d, ctx, e)
    &&& ok ==> expression_output(d, o, o2, ctx, e)
}

/// A walk that continues with `rest` where the step before it succeeded
/// (ending at `dm`, `om`), and otherwise fails there, leaving `dm` and `om`.
pub open spec fn then_walk(okm: bool, dm: AstVisitorData, om: Output, d2: AstVisitorData, o2: Output, ok: bool, rest: bool) -> bool {
    if okm {
        rest
    } else {
        !ok && d2 == dm && o2 == om
    }
}

/// A point a walk passes through: a state, an output, and whether the walk
/// has succeeded so far.
#[verifier::opaque]
pub open spec fn walk_point(d: AstVisitorData, o: Output, ok: bool) -> bool {
    true
}

/// Every point a walk can pass through is one.
proof fn lemma_point(d: AstVisitorData, o: Output, ok: bool)
    ensures
        walk_point(d, o, ok),
{
    reveal(walk_point);
}

/// A step that does nothing and succeeds.
pub open spec fn stays(d: AstVisitorData, o: Output, d2: AstVisitorData, o2: Output, ok: bool) -> bool {
    ok && d2 == d && o2 == o
}

/// The line a walk prints for a node it does not know: `after` is `before`
/// with `text` printed.
pub open spec fn printed_line(before: Output, after: Output, text: Seq<char>) -> bool {
    &&& after.wf()
    &&& after.report == before.report
    &&& after.printed@.len() == before.printed@.len() + 1
    &&& after.printed@.drop_last() == before.printed@
    &&& after.printed@.last()@ == text
}

/// The walk of expression `e`, from state `d` and output `o` to state `d2`
/// and output `o2`, succeeding where `ok`: the visits of `e` itself, then the
/// walk of each of its parts in the order of the source; a failing step ends
/// the walk.
#[verifier::opaque]
pub open spec fn walk_expr(
    d: AstVisitorData,
    o: Output,
    ctx: DefCtx,
    blocks: Seq<NodeId>,
    e: Expression,
    d2: AstVisitorData,
    o2: Output,
    ok: bool,
) -> bool
    decreases e,
{
    exists|dm: AstVisitorData, om: Output, okm: bool|
        #[trigger] walk_point(dm, om, okm) && expression_visited(d, o, dm, om, ctx, blocks, e, okm) && then_walk(
            okm,
            dm,
            om,
            d2,
            o2,
            ok,
            match e {
                Expression::UnaryOperation(u) => walk_expr(dm, om, ctx, blocks, *u.sub_expression, d2, o2, ok),
                Expression::BinaryOperation(b) => exists|d3: AstVisitorData, o3: Output, ok3: bool|
                    #[trigger] walk_point(d3, o3, ok3) && walk_expr(dm, om, ctx, blocks, *b.left_expression, d3, o3, ok3)
                        && then_walk(ok3, d3, o3, d2, o2, ok, walk_expr(d3, o3, ctx, blocks, *b.right_expression, d2, o2, ok)),
                Expression::Conditional(c) => exists|d3: AstVisitorData, o3: Output, ok3: bool|
                    #[trigger] walk_point(d3, o3, ok3) && walk_expr(dm, om, ctx, blocks, *c.condition, d3, o3, ok3) && then_walk(
                        ok3,
                        d3,
                        o3,
                        d2,
                        o2,
                        ok,
                        exists|d4: AstVisitorData, o4: Output, ok4: bool|
                            #[trigger] walk_point(d4, o4, ok4) && walk_expr(d3, o3, ctx, blocks, *c.true_expression, d4, o4, ok4)
                                && then_walk(ok4, d4, o4, d2, o2, ok, walk_expr(d4, o4, ctx, blocks, *c.false_expression, d2, o2, ok)),
                    ),
                Expression::Assignment(a) => exists|d3: AstVisitorData, o3: Output, ok3: bool|
                    #[trigger] walk_point(d3, o3, ok3) && walk_expr(dm, om, ctx, blocks, *a.left_hand_side, d3, o3, ok3)
                        && then_walk(ok3, d3, o3, d2, o2, ok, walk_expr(d3, o3, ctx, blocks, *a.right_hand_side, d2, o2, ok)),
                Expression::FunctionCall(call) => exists|d3: AstVisitorData, o3: Output, ok3: bool|
                    #[trigger] walk_point(d3, o3, ok3) && walk_expr(dm, om, ctx, blocks, *call.expression, d3, o3, ok3)
                        && then_walk(ok3, d3, o3, d2, o2, ok, walk_exprs(d3, o3, ctx, blocks, call.arguments@, d2, o2, ok)),
                Expression::FunctionCallOptions(call) => exists|d3: AstVisitorData, o3: Output, ok3: bool|
                    #[trigger] walk_point(d3, o3, ok3) && walk_expr(dm, om, ctx, blocks, *call.expression, d3, o3, ok3)
                        && then_walk(ok3, d3, o3, d2, o2, ok, walk_exprs(d3, o3, ctx, blocks, call.options@, d2, o2, ok)),
                Expression::IndexAccess(ia) => exists|d3: AstVisitorData, o3: Output, ok3: bool|
                    #[trigger] walk_point(d3, o3, ok3) && walk_expr(dm, om, ctx, blocks, *ia.base_expression, d3, o3, ok3)
                        && then_walk(ok3, d3, o3, d2, o2, ok, walk_opt_expr(d3, o3, ctx, blocks, ia.index_expression, d2, o2, ok)),
                Expression::IndexRangeAccess(ra) => exists|d3: AstVisitorData, o3: Output, ok3: bool|
                    #[trigger] walk_point(d3, o3, ok3) && walk_expr(dm, om, ctx, blocks, *ra.base_expression, d3, o3, ok3)
                        && then_walk(
                        ok3,
                        d3,
                        o3,
                        d2,
                        o2,
                        ok,
                        exists|d4: AstVisitorData, o4: Output, ok4: bool|
                            #[trigger] walk_point(d4, o4, ok4) && walk_opt_expr(d3, o3, ctx, blocks, ra.start_expression, d4, o4, ok4)
                                && then_walk(ok4, d4, o4, d2, o2, ok, walk_opt_expr(d4, o4, ctx, blocks, ra.end_expression, d2, o2, ok)),
                    ),
                Expression::MemberAccess(m) => walk_expr(dm, om, ctx, blocks, *m.expression, d2, o2, ok),
                Expression::TupleExpression(t) => walk_components(dm, om, ctx, blocks, t.components@, d2, o2, ok),
                Expression::UnhandledExpression { info, node_type } => if node_type@ != "PlaceholderStatement"@ {
                    ok && d2 == dm && printed_line(om, o2, unhandled_text("expression"@, node_type@, info.src@, info.id as int))
                } else {
                    stays(dm, om, d2, o2, ok)
                },
                _ => stays(dm, om, d2, o2, ok),
            },
        )
}

/// The walk of an optional expression.
pub open spec fn walk_opt_expr(
    d: AstVisitorData,
    o: Output,
    ctx: DefCtx,
    blocks: Seq<NodeId>,
    x: Option<Box<Expression>>,
    d2: AstVisitorData,
    o2: Output,
    ok: bool,
) -> bool
    decreases x,
{
    match x {
        Some(e) => walk_expr(d, o, ctx, blocks, *e, d2, o2, ok),
        None => stays(d, o, d2, o2, ok),
    }
}

/// The walk of expressions one after another, ending at the first that fails.
pub open spec fn walk_exprs(
    d: AstVisitorData,
    o: Output,
    ctx: DefCtx,
    blocks: Seq<NodeId>,
    es: Seq<Expression>,
    d2: AstVisitorData,
    o2: Output,
    ok: bool,
) -> bool
    decreases es,
{
    if es.len() == 0 {
        stays(d, o, d2, o2, ok)
    } else {
        exists|dm: AstVisitorData, om: Output, okm: bool|
            #[trigger] walk_point(dm, om, okm) && walk_exprs(d, o, ctx, blocks, es.subrange(0, es.len() - 1), dm, om, okm) && then_walk(
                okm,
                dm,
                om,
                d2,
                o2,
                ok,
                walk_expr(dm, om, ctx, blocks, es[es.len() - 1], d2, o2, ok),
            )
    }
}

/// The walk of a tuple's components that are there, one after another.
pub open spec fn walk_components(
    d: AstVisitorData,
    o: Output,
    ctx: DefCtx,
    blocks: Seq<NodeId>,
    es: Seq<Option<Expression>>,
    d2: AstVisitorData,
    o2: Output,
    ok: bool,
) -> bool
    decreases es,
{
    if es.len() == 0 {
        stays(d, o, d2, o2, ok)
    } else {
        exists|dm: AstVisitorData, om: Output, okm: bool|
            #[trigger] walk_point(dm, om, okm) && walk_components(d, o, ctx, blocks, es.subrange(0, es.len() - 1), dm, om, okm) && then_walk(
                okm,
                dm,
                om,
                d2,
                o2,
                ok,
                match es[es.len() - 1] {
                    Some(x) => walk_expr(dm, om, ctx, blocks, x, d2, o2, ok),
                    None => stays(dm, om, d2, o2, ok),
                },
            )
    }
}

/// A walk of expressions that fails on a prefix fails on the whole.
proof fn lemma_walk_exprs_stop(
    d: AstVisitorData,
    o: Output,
    ctx: DefCtx,
    blocks: Seq<NodeId>,
    es: Seq<Expression>,
    k: int,
    d2: AstVisitorData,
    o2: Output,
)
    requires
        0 <= k <= es.len(),
        walk_exprs(d, o, ctx, blocks, es.subrange(0, k), d2, o2, false),
    ensures
        walk_exprs(d, o, ctx, blocks, es, d2, o2, false),
    decreases es.len() - k,
{
    if k < es.len() {
        let p = es.subrange(0, k + 1);
        assert(p.subrange(0, p.len() - 1) =~= es.subrange(0, k));
        assert(walk_exprs(d, o, ctx, blocks, p.subrange(0, p.len() - 1), d2, o2, false));
        reveal(walk_point);
        assert(walk_point(d2, o2, false));
        assert(walk_exprs(d, o, ctx, blocks, p, d2, o2, false));
        lemma_walk_exprs_stop(d, o, ctx, blocks, es, k + 1, d2, o2);
    } else {
        assert(es.subrange(0, k) =~= es);
    }
}

/// A walk of statements that fails on a prefix fails on the whole.
proof fn lemma_walk_stmts_stop(
    d: AstVisitorData,
    o: Output,
    ctx: DefCtx,
    blocks: Seq<NodeId>,
    es: Seq<Statement>,
    k: int,
    d2: AstVisitorData,
    o2: Output,
)
    requires
        0 <= k <= es.len(),
        walk_stmts(d, o, ctx, blocks, es.subrange(0, k), d2, o2, false),
    ensures
        walk_stmts(d, o, ctx, blocks, es, d2, o2, false),
    decreases es.len() - k,
{
    if k < es.len() {
        let p = es.subrange(0, k + 1);
        assert(p.subrange(0, p.len() - 1) =~= es.subrange(0, k));
        assert(walk_stmts(d, o, ctx, blocks, p.subrange(0, p.len() - 1), d2, o2, false));
        reveal(walk_point);
        assert(walk_point(d2, o2, false));
        assert(walk_stmts(d, o, ctx, blocks, p, d2, o2, false));
        lemma_walk_stmts_stop(d, o, ctx, blocks, es, k + 1, d2, o2);
    } else {
        assert(es.subrange(0, k) =~= es);
    }
}

/// A walk of clauses that fails on a prefix fails on the whole.
proof fn lemma_walk_clauses_stop(
    d: AstVisitorData,
    o: Output,
    ctx: DefCtx,
    blocks: Seq<NodeId>,
    es: Seq<TryCatchClause>,
    k: int,
    d2: AstVisitorData,
    o2: Output,
)
    requires
        0 <= k <= es.len(),
        walk_clauses(d, o, ctx, blocks, es.subrange(0, k), d2, o2, false),
    ensures
        walk_clauses(d, o, ctx, blocks, es, d2, o2, false),
    decreases es.len() - k,
{
    if k < es.len() {
        let p = es.subrange(0, k + 1);
        assert(p.subrange(0, p.len() - 1) =~= es.subrange(0, k));
        assert(walk_clauses(d, o, ctx, blocks, p.subrange(0, p.len() - 1), d2, o2, false));
        reveal(walk_point);
        assert(walk_point(d2, o2, false));
        assert(walk_clauses(d, o, ctx, blocks, p, d2, o2, false));
        lemma_walk_clauses_stop(d, o, ctx, blocks, es, k + 1, d2, o2);
    } else {
        assert(es.subrange(0, k) =~= es);
    }
}

/// A walk of Yul expressions that fails on a prefix fails on the whole.
proof fn lemma_walk_yul_exprs_stop(
    d: AstVisitorData,
    o: Output,
    ctx: DefCtx,
    a: InlineAssembly,
    es: Seq<YulExpression>,
    k: int,
    d2: AstVisitorData,
    o2: Output,
)
    requires
        0 <= k <= es.len(),
        walk_yul_exprs(d, o, ctx, a, es.subrange(0, k), d2, o2, false),
    ensures
        walk_yul_exprs(d, o, ctx, a, es, d2, o2, false),
    decreases es.len() - k,
{
    if k < es.len() {
        let p = es.subrange(0, k + 1);
        assert(p.subrange(0, p.len() - 1) =~= es.subrange(0, k));
        assert(walk_yul_exprs(d, o, ctx, a, p.subrange(0, p.len() - 1), d2, o2, false));
        reveal(walk_point);
        assert(walk_point(d2, o2, false));
        assert(walk_yul_exprs(d, o, ctx, a, p, d2, o2, false));
        lemma_walk_yul_exprs_stop(d, o, ctx, a, es, k + 1, d2, o2);
    } else {
        assert(es.subrange(0, k) =~= es);
    }
}

/// A walk of Yul statements that fails on a prefix fails on the whole.
proof fn lemma_walk_yul_stmts_stop(
    d: AstVisitorData,
    o: Output,
    ctx: DefCtx,
    a: InlineAssembly,
    es: Seq<YulStatement>,
    k: int,
    d2: AstVisitorData,
    o2: Output,
)
    requires
        0 <= k <= es.len(),
        walk_yul_stmts(d, o, ctx, a, es.subrange(0, k), d2, o2, false),
    ensures
        walk_yul_stmts(d, o, ctx, a, es, d2, o2, false),
    decreases es.len() - k,
{
    if k < es.len() {
        let p = es.subrange(0, k + 1);
        assert(p.subrange(0, p.len() - 1) =~= es.subrange(0, k));
        assert(walk_yul_stmts(d, o, ctx, a, p.subrange(0, p.len() - 1), d2, o2, false));
        reveal(walk_point);
        assert(walk_point(d2, o2, false));
        assert(walk_yul_stmts(d, o, ctx, a, p, d2, o2, false));
        lemma_walk_yul_stmts_stop(d, o, ctx, a, es, k + 1, d2, o2);
    } else {
        assert(es.subrange(0, k) =~= es);
    }
}

/// A walk of Yul cases that fails on a prefix fails on the whole.
proof fn lemma_walk_yul_cases_stop(
    d: AstVisitorData,
    o: Output,
    ctx: DefCtx,
    a: InlineAssembly,
    es: Seq<YulCase>,
    k: int,
    d2: AstVisitorData,
    o2: Output,
)
    requires
        0 <= k <= es.len(),
        walk_yul_cases(d, o, ctx, a, es.subrange(0, k), d2, o2, false),
    ensures
        walk_yul_cases(d, o, ctx, a, es, d2, o2, false),
    decreases es.len() - k,
{
    if k < es.len() {
        let p = es.subrange(0, k + 1);
        assert(p.subrange(0, p.len() - 1) =~= es.subrange(0, k));
        assert(walk_yul_cases(d, o, ctx, a, p.subrange(0, p.len() - 1), d2, o2, false));
        reveal(walk_point);
        assert(walk_point(d2, o2, false));
        assert(walk_yul_cases(d, o, ctx, a, p, d2, o2, false));
        lemma_walk_yul_cases_stop(d, o, ctx, a, es, k + 1, d2, o2);
    } else {
        assert(es.subrange(0, k) =~= es);
    }
}

/// A walk of tuple components that fails on a prefix fails on the whole.
proof fn lemma_walk_components_stop(
    d: AstVisitorData,
    o: Output,
    ctx: DefCtx,
    blocks: Seq<NodeId>,
    es: Seq<Option<Expression>>,
    k: int,
    d2: AstVisitorData,
    o2: Output,
)
    requires
        0 <= k <= es.len(),
        walk_components(d, o, ctx, blocks, es.subrange(0, k), d2, o2, false),
    ensures
        walk_components(d, o, ctx, blocks, es, d2, o2, false),
    decreases es.len() - k,
{
    if k < es.len() {
        let p = es.subrange(0, k + 1);
        assert(p.subrange(0, p.len() - 1) =~= es.subrange(0, k));
        assert(walk_components(d, o, ctx, blocks, p.subrange(0, p.len() - 1), d2, o2, false));
        reveal(walk_point);
        assert(walk_point(d2, o2, false));
        assert(walk_components(d, o, ctx, blocks, p, d2, o2, false));
        lemma_walk_components_stop(d, o, ctx, blocks, es, k + 1, d2, o2);
    } else {
        assert(es.subrange(0, k) =~= es);
    }
}

/// What the analyses' visits of statement `s` itself do, as one step of the walk.
pub open spec fn statement_visited(d: AstVisitorData, o: Output, d2: AstVisitorData, o2: Output, ctx: DefCtx, s: Statement, ok: bool) -> bool {
    &&& d2 == (AstVisitorData { check_effects_interactions: d2.check_effects_interactions, ..d })
    &&& d2.wf()
    &&& o2.wf()
    &&& o.extends(o2)
    &&& only_under(o, o2, unit_path(*ctx.unit))
    &&& ok <==> statement_ok(d, ctx, s)
    &&& ok ==> o2.report.entries_of(unit_path(*ctx.unit)) == o.report.entries_of(unit_path(*ctx.unit))
        + statement_entries(d, ctx, s)
    &&& ok ==> printed_texts(o2) == printed_texts(o) + effects_warnings(
        d.check_effects_interactions is Some,
        ctx,
        s
    )
    &&& ok ==> effects_bound(d.check_effects_interactions, d2.check_effects_interactions, ctx, s)
}

/// What the analyses' visits of an `if` statement do, as one step of the walk.
pub open spec fn if_visited(d: AstVisitorData, o: Output, d2: AstVisitorData, o2: Output, ctx: DefCtx, st: IfStatement, ok: bool) -> bool {
    &&& d2.wf()
    &&& o2.wf()
    &&& o.extends(o2)
    &&& only_under(o, o2, unit_path(*ctx.unit))
    &&& d2 == (AstVisitorData { unchecked_erc20_transfer: d2.unchecked_erc20_transfer, ..d })
    &&& match (d.unchecked_erc20_transfer, d2.unchecked_erc20_transfer) {
        (Some(v), Some(w)) => UncheckedERC20TransferVisitor::visited_if(v, w, st),
        (None, None) => true,
        _ => false
    }
    &&& ({
        let a = d.assignment_comparisons is Some && definition_id(*ctx.node) is Some && contains_op(
            st.condition,
            "="@,
        );
        &&& o2.report == o.report
        &&& a ==> (ok <==> spec_source_line(*ctx.unit, st.info.src@) is Ok)
        &&& !a ==> ok
        &&& !ok ==> o2 == o
        &&& ok ==> printed_texts(o2) == printed_texts(o) + only_if(
            a,
            seq![
                line_text(
                    *ctx.unit,
                    st.info.src@,
                    assignment_text(
                        location_text(*ctx.contract, *ctx.node),
                        "an if statement"@,
                        spec_node_text(*ctx.unit, info_of(st.condition).src@),
                    ),
                ),
            ],
        )
    })
}

/// What the analyses' visits of a `for` statement do, as one step of the walk.
pub open spec fn for_visited(d: AstVisitorData, o: Output, d2: AstVisitorData, o2: Output, ctx: DefCtx, st: ForStatement, ok: bool) -> bool {
    &&& d2 == (AstVisitorData { external_calls_in_loop: d2.external_calls_in_loop, storage_array_loop: d2.storage_array_loop, ..d })
    &&& d2.wf()
    &&& o2.wf()
    &&& o.extends(o2)
    &&& only_under(o, o2, unit_path(*ctx.unit))
    &&& match (d.external_calls_in_loop, d2.external_calls_in_loop) {
        (Some(v), Some(w)) => w.loop_ids@ == v.loop_ids@.push(st.info.id) && w.last_call == v.last_call,
        (None, None) => true,
        _ => false
    }
    &&& match (d.storage_array_loop, d2.storage_array_loop) {
        (Some(v), Some(w)) => w.storage_arrays == v.storage_arrays && forall|id: NodeId| #[trigger] w.loops(id)
            == (v.loops(id) || (definition_id(*ctx.node) == Some(id) && (st.condition matches Some(c) && reads_length(v.storage_arrays@, c))
            && exists|k: int| 0 <= k < v.functions@.len() && (#[trigger] v.functions@[k]).0 == id)),
        (None, None) => true,
        _ => false
    }
    &&& printed_two(
        o,
        o2,
        *ctx.unit,
        if_selected(d.assignment_comparisons is Some, for_assign_finding(ctx, st)),
        if_selected(d.redundant_state_variable_access is Some, for_state_finding(ctx, st)),
        ok
    )
}

/// What the analyses' visits of a `while` statement do, as one step of the walk.
pub open spec fn while_visited(d: AstVisitorData, o: Output, d2: AstVisitorData, o2: Output, ctx: DefCtx, st: WhileStatement, ok: bool) -> bool {
    &&& d2 == (AstVisitorData { external_calls_in_loop: d2.external_calls_in_loop, storage_array_loop: d2.storage_array_loop, ..d })
    &&& d2.wf()
    &&& o2.wf()
    &&& o.extends(o2)
    &&& only_under(o, o2, unit_path(*ctx.unit))
    &&& match (d.external_calls_in_loop, d2.external_calls_in_loop) {
        (Some(v), Some(w)) => w.loop_ids@ == v.loop_ids@.push(st.info.id) && w.last_call == v.last_call,
        (None, None) => true,
        _ => false
    }
    &&& match (d.storage_array_loop, d2.storage_array_loop) {
        (Some(v), Some(w)) => w.storage_arrays == v.storage_arrays && forall|id: NodeId| #[trigger] w.loops(id)
            == (v.loops(id) || (definition_id(*ctx.node) == Some(id) && reads_length(v.storage_arrays@, st.condition)
            && exists|k: int| 0 <= k < v.functions@.len() && (#[trigger] v.functions@[k]).0 == id)),
        (None, None) => true,
        _ => false
    }
    &&& printed_two(
        o,
        o2,
        *ctx.unit,
        if_selected(d.assignment_comparisons is Some, while_assign_finding(ctx, st)),
        if_selected(d.redundant_state_variable_access is Some, while_state_finding(ctx, st)),
        ok
    )
}

/// The visit `explicit_variable_return` makes of a declaration statement.
pub open spec fn declaration_noted(d: AstVisitorData, d2: AstVisitorData, ds: VariableDeclarationStatement) -> bool {
    &&& d2 == (AstVisitorData { explicit_variable_return: d2.explicit_variable_return, ..d })
    &&& match (d.explicit_variable_return, d2.explicit_variable_return) {
        (Some(v), Some(w)) => ExplicitVariableReturnVisitor::declared(v, w, ds),
        (None, None) => true,
        _ => false,
    }
}

/// The visit `explicit_variable_return` makes of a return statement.
pub open spec fn return_visited(d: AstVisitorData, o: Output, d2: AstVisitorData, o2: Output, ctx: DefCtx, ret: Return, ok: bool) -> bool {
    &&& d2 == d
    &&& match d.explicit_variable_return {
        Some(v) => {
            &&& o2.wf()
            &&& o.extends(o2)
            &&& reported_at_if(
                o,
                o2,
                *ctx.unit,
                ret.info.src@,
                local_return(v.local_variable_ids@, ret.expression) is Some,
                location_text(*ctx.contract, *ctx.node) + " returns "@ + local_return(v.local_variable_ids@, ret.expression)->Some_0
                    + " explicitly: `"@ + spec_node_text(*ctx.unit, ret.info.src@) + "`"@,
                ok,
            )
        },
        None => ok && o2 == o,
    }
}

/// The leaving of a loop by `external_calls_in_loop`: it fails where the loop
/// is not the innermost one it entered.
pub open spec fn loop_left(d: AstVisitorData, d2: AstVisitorData, id: NodeId, ok: bool) -> bool {
    &&& d2 == (AstVisitorData { external_calls_in_loop: d2.external_calls_in_loop, ..d })
    &&& match (d.external_calls_in_loop, d2.external_calls_in_loop) {
        (Some(v), Some(w)) => {
            &&& w.last_call == v.last_call
            &&& ok <==> (v.loop_ids@.len() > 0 && v.loop_ids@.last() == id)
            &&& v.loop_ids@.len() > 0 ==> w.loop_ids@ == v.loop_ids@.drop_last()
        },
        (None, None) => ok,
        _ => false,
    }
}

/// Whether a statement the walk does not know is reported.
pub open spec fn reported_unhandled(node_type: Seq<char>) -> bool {
    node_type != "Break"@ && node_type != "Continue"@ && node_type != "PlaceholderStatement"@
}

/// The walk of an optional plain expression.
pub open spec fn walk_opt_plain(
    d: AstVisitorData,
    o: Output,
    ctx: DefCtx,
    blocks: Seq<NodeId>,
    x: Option<Expression>,
    d2: AstVisitorData,
    o2: Output,
    ok: bool,
) -> bool {
    match x {
        Some(e) => walk_expr(d, o, ctx, blocks, e, d2, o2, ok),
        None => stays(d, o, d2, o2, ok),
    }
}

/// The walk of statement `s`, with `blocks` the enclosing blocks: the visits
/// of `s` itself, then what each kind of statement leads to, in the order of
/// the source; a failing step ends the walk.
pub open spec fn walk_stmt(
    d: AstVisitorData,
    o: Output,
    ctx: DefCtx,
    blocks: Seq<NodeId>,
    s: Statement,
    d2: AstVisitorData,
    o2: Output,
    ok: bool,
) -> bool
    decreases s,
{
    exists|dm: AstVisitorData, om: Output, okm: bool|
        #[trigger] walk_point(dm, om, okm) && statement_visited(d, o, dm, om, ctx, s, okm) && then_walk(
            okm,
            dm,
            om,
            d2,
            o2,
            ok,
            match s {
                Statement::VariableDeclarationStatement(ds) => exists|d3: AstVisitorData|
                    #[trigger] walk_point(d3, om, true) && declaration_noted(dm, d3, ds) && match ds.initial_value {
                        Some(e) => walk_expr(d3, om, ctx, blocks, e, d2, o2, ok),
                        None => stays(d3, om, d2, o2, ok),
                    },
                Statement::IfStatement(st) => exists|d3: AstVisitorData, o3: Output, ok3: bool|
                    #[trigger] walk_point(d3, o3, ok3) && if_visited(dm, om, d3, o3, ctx, st, ok3) && then_walk(
                        ok3,
                        d3,
                        o3,
                        d2,
                        o2,
                        ok,
                        exists|d4: AstVisitorData, o4: Output, ok4: bool|
                            #[trigger] walk_point(d4, o4, ok4) && walk_bos(d3, o3, ctx, blocks, st.true_body, d4, o4, ok4) && then_walk(
                                ok4,
                                d4,
                                o4,
                                d2,
                                o2,
                                ok,
                                match st.false_body {
                                    Some(fb) => walk_bos(d4, o4, ctx, blocks, fb, d2, o2, ok),
                                    None => stays(d4, o4, d2, o2, ok),
                                },
                            ),
                    ),
                Statement::ForStatement(st) => exists|d3: AstVisitorData, o3: Output, ok3: bool|
                    #[trigger] walk_point(d3, o3, ok3) && for_visited(dm, om, d3, o3, ctx, st, ok3) && then_walk(
                        ok3,
                        d3,
                        o3,
                        d2,
                        o2,
                        ok,
                        exists|d4: AstVisitorData, o4: Output, ok4: bool|
                            #[trigger] walk_point(d4, o4, ok4) && walk_opt_stmt(d3, o3, ctx, blocks, st.initialization_expression, d4, o4, ok4)
                                && then_walk(
                                ok4,
                                d4,
                                o4,
                                d2,
                                o2,
                                ok,
                                exists|d5: AstVisitorData, o5: Output, ok5: bool|
                                    #[trigger] walk_point(d5, o5, ok5) && walk_opt_plain(d4, o4, ctx, blocks, st.condition, d5, o5, ok5)
                                        && then_walk(
                                        ok5,
                                        d5,
                                        o5,
                                        d2,
                                        o2,
                                        ok,
                                        exists|d6: AstVisitorData, o6: Output, ok6: bool|
                                            #[trigger] walk_point(d6, o6, ok6) && walk_opt_stmt(d5, o5, ctx, blocks, st.loop_expression, d6, o6, ok6)
                                                && then_walk(
                                                ok6,
                                                d6,
                                                o6,
                                                d2,
                                                o2,
                                                ok,
                                                exists|d7: AstVisitorData, o7: Output, ok7: bool|
                                                    #[trigger] walk_point(d7, o7, ok7) && walk_bos(d6, o6, ctx, blocks, st.body, d7, o7, ok7)
                                                        && then_walk(ok7, d7, o7, d2, o2, ok, loop_left(d7, d2, st.info.id, ok) && o2 == o7),
                                            ),
                                    ),
                            ),
                    ),
                Statement::WhileStatement(st) => exists|d3: AstVisitorData, o3: Output, ok3: bool|
                    #[trigger] walk_point(d3, o3, ok3) && while_visited(dm, om, d3, o3, ctx, st, ok3) && then_walk(
                        ok3,
                        d3,
                        o3,
                        d2,
                        o2,
                        ok,
                        exists|d4: AstVisitorData, o4: Output, ok4: bool|
                            #[trigger] walk_point(d4, o4, ok4) && walk_expr(d3, o3, ctx, blocks, st.condition, d4, o4, ok4) && then_walk(
                                ok4,
                                d4,
                                o4,
                                d2,
                                o2,
                                ok,
                                exists|d5: AstVisitorData, o5: Output, ok5: bool|
                                    #[trigger] walk_point(d5, o5, ok5) && walk_bos(d4, o4, ctx, blocks, st.body, d5, o5, ok5)
                                        && then_walk(ok5, d5, o5, d2, o2, ok, loop_left(d5, d2, st.info.id, ok) && o2 == o5),
                            ),
                    ),
                Statement::TryStatement { clauses, .. } => walk_clauses(dm, om, ctx, blocks, clauses@, d2, o2, ok),
                Statement::UncheckedBlock(b) => walk_block(dm, om, ctx, blocks, b, d2, o2, ok),
                Statement::Return(ret) => exists|d3: AstVisitorData, o3: Output, ok3: bool|
                    #[trigger] walk_point(d3, o3, ok3) && return_visited(dm, om, d3, o3, ctx, ret, ok3) && then_walk(
                        ok3,
                        d3,
                        o3,
                        d2,
                        o2,
                        ok,
                        walk_opt_plain(d3, o3, ctx, blocks, ret.expression, d2, o2, ok),
                    ),
                Statement::ExpressionStatement { expression } => walk_expr(dm, om, ctx, blocks, expression, d2, o2, ok),
                Statement::InlineAssembly(a) => walk_asm(dm, om, ctx, a, d2, o2, ok),
                Statement::UnhandledStatement { info, node_type } => if reported_unhandled(node_type@) {
                    ok && d2 == dm && printed_line(om, o2, unhandled_text("statement"@, node_type@, info.src@, info.id as int))
                } else {
                    stays(dm, om, d2, o2, ok)
                },
                _ => stays(dm, om, d2, o2, ok),
            },
        )
}

/// The walk of an optional boxed statement.
pub open spec fn walk_opt_stmt(
    d: AstVisitorData,
    o: Output,
    ctx: DefCtx,
    blocks: Seq<NodeId>,
    x: Option<Box<Statement>>,
    d2: AstVisitorData,
    o2: Output,
    ok: bool,
) -> bool
    decreases x,
{
    match x {
        Some(s) => walk_stmt(d, o, ctx, blocks, *s, d2, o2, ok),
        None => stays(d, o, d2, o2, ok),
    }
}

/// The walk of a block or of a single statement.
pub open spec fn walk_bos(
    d: AstVisitorData,
    o: Output,
    ctx: DefCtx,
    blocks: Seq<NodeId>,
    bs: BlockOrStatement,
    d2: AstVisitorData,
    o2: Output,
    ok: bool,
) -> bool
    decreases bs,
{
    match bs {
        BlockOrStatement::Block(b) => walk_block(d, o, ctx, blocks, *b, d2, o2, ok),
        BlockOrStatement::Statement(s) => walk_stmt(d, o, ctx, blocks, *s, d2, o2, ok),
    }
}

/// The walk of a block: its statements in order, with the block on top of
/// the enclosing blocks.
pub open spec fn walk_block(
    d: AstVisitorData,
    o: Output,
    ctx: DefCtx,
    blocks: Seq<NodeId>,
    b: Block,
    d2: AstVisitorData,
    o2: Output,
    ok: bool,
) -> bool
    decreases b,
{
    walk_stmts(d, o, ctx, blocks.push(b.info.id), b.statements@, d2, o2, ok)
}

/// The walk of statements one after another, ending at the first that fails.
pub open spec fn walk_stmts(
    d: AstVisitorData,
    o: Output,
    ctx: DefCtx,
    blocks: Seq<NodeId>,
    ss: Seq<Statement>,
    d2: AstVisitorData,
    o2: Output,
    ok: bool,
) -> bool
    decreases ss,
{
    if ss.len() == 0 {
        stays(d, o, d2, o2, ok)
    } else {
        exists|dm: AstVisitorData, om: Output, okm: bool|
            #[trigger] walk_point(dm, om, okm) && walk_stmts(d, o, ctx, blocks, ss.subrange(0, ss.len() - 1), dm, om, okm)
                && then_walk(okm, dm, om, d2, o2, ok, walk_stmt(dm, om, ctx, blocks, ss[ss.len() - 1], d2, o2, ok))
    }
}

/// The walk of a `try` statement's clauses, one block after another.
pub open spec fn walk_clauses(
    d: AstVisitorData,
    o: Output,
    ctx: DefCtx,
    blocks: Seq<NodeId>,
    cs: Seq<TryCatchClause>,
    d2: AstVisitorData,
    o2: Output,
    ok: bool,
) -> bool
    decreases cs,
{
    if cs.len() == 0 {
        stays(d, o, d2, o2, ok)
    } else {
        exists|dm: AstVisitorData, om: Output, okm: bool|
            #[trigger] walk_point(dm, om, okm) && walk_clauses(d, o, ctx, blocks, cs.subrange(0, cs.len() - 1), dm, om, okm)
                && then_walk(okm, dm, om, d2, o2, ok, walk_block(dm, om, ctx, blocks, cs[cs.len() - 1].block, d2, o2, ok))
    }
}

/// What `inline_assembly` does on an inline assembly statement.
pub open spec fn asm_visited(d: AstVisitorData, o: Output, o2: Output, ctx: DefCtx, a: InlineAssembly, ok: bool) -> bool {
    match d.inline_assembly {
        Some(_) => {
            &&& o2.wf()
            &&& o.extends(o2)
            &&& o2.printed == o.printed
            &&& only_under(o, o2, unit_path(*ctx.unit))
            &&& ok <==> spec_source_line(*ctx.unit, a.info.src@) is Ok
            &&& ok ==> o2.report.entries_of(unit_path(*ctx.unit)) == o.report.entries_of(unit_path(*ctx.unit)) + assembly_entries(
                d,
                ctx,
                a,
            )
        },
        None => ok && o2 == o,
    }
}

/// The walk of an inline assembly statement: the statement, then its Yul code.
#[verifier::opaque]
pub open spec fn walk_asm(d: AstVisitorData, o: Output, ctx: DefCtx, a: InlineAssembly, d2: AstVisitorData, o2: Output, ok: bool) -> bool {
    exists|om: Output, okm: bool|
        #[trigger] walk_point(d, om, okm) && asm_visited(d, o, om, ctx, a, okm) && then_walk(
            okm,
            d,
            om,
            d2,
            o2,
            ok,
            match a.ast {
                Some(yb) => walk_yul_block(d, om, ctx, a, yb, d2, o2, ok),
                None => stays(d, om, d2, o2, ok),
            },
        )
}

/// What `inline_assembly` does on a Yul function call.
pub open spec fn yul_call_visited(
    d: AstVisitorData,
    o: Output,
    o2: Output,
    ctx: DefCtx,
    a: InlineAssembly,
    name: Seq<char>,
    args: Seq<YulExpression>,
    ok: bool,
) -> bool {
    match d.inline_assembly {
        Some(_) => {
            &&& o2.wf()
            &&& o.extends(o2)
            &&& o2.printed == o.printed
            &&& !loads_free_memory_pointer(name, args) && !copies_arguments(name, args) ==> o2.report == o.report && ok
            &&& ok && loads_free_memory_pointer(name, args) ==> o2.report.entries_of(unit_path(*ctx.unit)) == o.report.entries_of(
                unit_path(*ctx.unit),
            ).push(
                (
                    Some(spec_source_line(*ctx.unit, a.info.src@)->Ok_0 as usize),
                    location_text(*ctx.contract, *ctx.node) + " contains inline assembly which loads the free memory pointer"@,
                ),
            )
            &&& ok && copies_arguments(name, args) ==> o2.report.entries_of(unit_path(*ctx.unit)) == o.report.entries_of(
                unit_path(*ctx.unit),
            ).push(
                (
                    Some(spec_source_line(*ctx.unit, a.info.src@)->Ok_0 as usize),
                    location_text(*ctx.contract, *ctx.node) + " contains inline assembly which copies arbitrary function arguments"@,
                ),
            )
            &&& (loads_free_memory_pointer(name, args) || copies_arguments(name, args)) ==> (ok <==> spec_source_line(
                *ctx.unit,
                a.info.src@,
            ) is Ok)
            &&& !ok ==> o2.report == o.report
            &&& only_under(o, o2, unit_path(*ctx.unit))
        },
        None => ok && o2 == o,
    }
}

/// The walk of a Yul expression: the visit of a function call, then its
/// arguments in order.
pub open spec fn walk_yul_expr(
    d: AstVisitorData,
    o: Output,
    ctx: DefCtx,
    a: InlineAssembly,
    ye: YulExpression,
    d2: AstVisitorData,
    o2: Output,
    ok: bool,
) -> bool
    decreases ye,
{
    match ye {
        YulExpression::YulFunctionCall { function_name, arguments } => exists|om: Output, okm: bool|
            #[trigger] walk_point(d, om, okm) && yul_call_visited(d, o, om, ctx, a, function_name@, arguments@, okm) && then_walk(
                okm,
                d,
                om,
                d2,
                o2,
                ok,
                walk_yul_exprs(d, om, ctx, a, arguments@, d2, o2, ok),
            ),
        YulExpression::UnhandledYulExpression { info, node_type } => ok && d2 == d && printed_line(
            o,
            o2,
            unhandled_text("yul expression"@, node_type@, info.src@, info.id as int),
        ),
        _ => stays(d, o, d2, o2, ok),
    }
}

/// The walk of Yul expressions one after another.
pub open spec fn walk_yul_exprs(
    d: AstVisitorData,
    o: Output,
    ctx: DefCtx,
    a: InlineAssembly,
    es: Seq<YulExpression>,
    d2: AstVisitorData,
    o2: Output,
    ok: bool,
) -> bool
    decreases es,
{
    if es.len() == 0 {
        stays(d, o, d2, o2, ok)
    } else {
        exists|dm: AstVisitorData, om: Output, okm: bool|
            #[trigger] walk_point(dm, om, okm) && walk_yul_exprs(d, o, ctx, a, es.subrange(0, es.len() - 1), dm, om, okm)
                && then_walk(okm, dm, om, d2, o2, ok, walk_yul_expr(dm, om, ctx, a, es[es.len() - 1], d2, o2, ok))
    }
}

/// The walk of an optional Yul expression.
pub open spec fn walk_opt_yul_expr(
    d: AstVisitorData,
    o: Output,
    ctx: DefCtx,
    a: InlineAssembly,
    x: Option<YulExpression>,
    d2: AstVisitorData,
    o2: Output,
    ok: bool,
) -> bool
    decreases x,
{
    match x {
        Some(e) => walk_yul_expr(d, o, ctx, a, e, d2, o2, ok),
        None => stays(d, o, d2, o2, ok),
    }
}

/// The walk of a Yul statement.
pub open spec fn walk_yul_stmt(
    d: AstVisitorData,
    o: Output,
    ctx: DefCtx,
    a: InlineAssembly,
    ys: YulStatement,
    d2: AstVisitorData,
    o2: Output,
    ok: bool,
) -> bool
    decreases ys,
{
    match ys {
        YulStatement::YulIf { condition, body } => exists|dm: AstVisitorData, om: Output, okm: bool|
            #[trigger] walk_point(dm, om, okm) && walk_yul_expr(d, o, ctx, a, condition, dm, om, okm) && then_walk(
                okm,
                dm,
                om,
                d2,
                o2,
                ok,
                walk_yul_block(dm, om, ctx, a, body, d2, o2, ok),
            ),
        YulStatement::YulSwitch { expression, cases } => exists|dm: AstVisitorData, om: Output, okm: bool|
            #[trigger] walk_point(dm, om, okm) && walk_yul_expr(d, o, ctx, a, expression, dm, om, okm) && then_walk(
                okm,
                dm,
                om,
                d2,
                o2,
                ok,
                walk_yul_cases(dm, om, ctx, a, cases@, d2, o2, ok),
            ),
        YulStatement::YulAssignment { variable_names, value } => exists|dm: AstVisitorData|
            #[trigger] walk_point(dm, o, true) && dm == (AstVisitorData { missing_return: dm.missing_return, ..d }) && match (
                d.missing_return,
                dm.missing_return,
            ) {
                (Some(v), Some(w)) => MissingReturnVisitor::yul_recorded(v, w, ctx, variable_names@),
                (None, None) => true,
                _ => false,
            } && walk_yul_expr(dm, o, ctx, a, value, d2, o2, ok),
        YulStatement::YulVariableDeclaration { value, .. } => walk_opt_yul_expr(d, o, ctx, a, value, d2, o2, ok),
        YulStatement::YulExpressionStatement { expression } => walk_yul_expr(d, o, ctx, a, expression, d2, o2, ok),
        YulStatement::UnhandledYulStatement { info, node_type } => ok && d2 == d && printed_line(
            o,
            o2,
            unhandled_text("yul statement"@, node_type@, info.src@, info.id as int),
        ),
    }
}

/// The walk of the cases of a Yul `switch`: each case's value, then its body.
pub open spec fn walk_yul_cases(
    d: AstVisitorData,
    o: Output,
    ctx: DefCtx,
    a: InlineAssembly,
    cs: Seq<YulCase>,
    d2: AstVisitorData,
    o2: Output,
    ok: bool,
) -> bool
    decreases cs,
{
    if cs.len() == 0 {
        stays(d, o, d2, o2, ok)
    } else {
        exists|dm: AstVisitorData, om: Output, okm: bool|
            #[trigger] walk_point(dm, om, okm) && walk_yul_cases(d, o, ctx, a, cs.subrange(0, cs.len() - 1), dm, om, okm)
                && then_walk(
                okm,
                dm,
                om,
                d2,
                o2,
                ok,
                exists|d3: AstVisitorData, o3: Output, ok3: bool|
                    #[trigger] walk_point(d3, o3, ok3) && walk_opt_yul_expr(dm, om, ctx, a, cs[cs.len() - 1].value, d3, o3, ok3)
                        && then_walk(ok3, d3, o3, d2, o2, ok, walk_yul_block(d3, o3, ctx, a, cs[cs.len() - 1].body, d2, o2, ok)),
            )
    }
}

/// The walk of a Yul block: its statements in order.
pub open spec fn walk_yul_block(
    d: AstVisitorData,
    o: Output,
    ctx: DefCtx,
    a: InlineAssembly,
    yb: YulBlock,
    d2: AstVisitorData,
    o2: Output,
    ok: bool,
) -> bool
    decreases yb,
{
    walk_yul_stmts(d, o, ctx, a, yb.statements@, d2, o2, ok)
}

/// The walk of Yul statements one after another.
pub open spec fn walk_yul_stmts(
    d: AstVisitorData,
    o: Output,
    ctx: DefCtx,
    a: InlineAssembly,
    ss: Seq<YulStatement>,
    d2: AstVisitorData,
    o2: Output,
    ok: bool,
) -> bool
    decreases ss,
{
    if ss.len() == 0 {
        stays(d, o, d2, o2, ok)
    } else {
        exists|dm: AstVisitorData, om: Output, okm: bool|
            #[trigger] walk_point(dm, om, okm) && walk_yul_stmts(d, o, ctx, a, ss.subrange(0, ss.len() - 1), dm, om, okm)
                && then_walk(okm, dm, om, d2, o2, ok, walk_yul_stmt(dm, om, ctx, a, ss[ss.len() - 1], d2, o2, ok))
    }
}

/// The context of node `n` of contract `c`.
pub open spec fn node_ctx<'a>(uctx: UnitCtx<'a>, c: &'a ContractDefinition, n: &'a ContractDefinitionNode) -> DefCtx<'a> {
    DefCtx { units: uctx.units, unit: uctx.unit, contract: c, node: n }
}

/// What the analyses' visits of contract `c` do before its definitions, as one step of the walk.
pub open spec fn contract_entered_step(d: AstVisitorData, o: Output, d2: AstVisitorData, o2: Output, units: &Vec<SourceUnit>, c: ContractDefinition) -> bool {
    &&& d2 == (AstVisitorData { tight_variable_packing: d2.tight_variable_packing, state_variable_mutability: d2.state_variable_mutability, unused_state_variables: d2.unused_state_variables, ..d })
    &&& d2.wf()
    &&& o2.wf()
    &&& o.extends(o2)
    &&& o2.report == o.report
    &&& printed_texts(o2) == printed_texts(o) + packing_lines(d.tight_variable_packing, units@, c)
    &&& mutability_entered(d.state_variable_mutability, d2.state_variable_mutability, c.info.id)
    &&& unused_entered(d.unused_state_variables, d2.unused_state_variables, c.info.id)
}

/// What the analyses' visits of a state variable do, as one step of the walk.
pub open spec fn variable_visited(d: AstVisitorData, o: Output, d2: AstVisitorData, o2: Output, ctx: DefCtx, vd: VariableDeclaration) -> bool {
    &&& d2 == (AstVisitorData { storage_array_loop: d2.storage_array_loop, state_variable_mutability: d2.state_variable_mutability, unused_state_variables: d2.unused_state_variables, abi_encoding: d2.abi_encoding, ..d })
    &&& d2.wf()
    &&& o2.wf()
    &&& o.extends(o2)
    &&& only_under(o, o2, unit_path(*ctx.unit))
    &&& o2 == o
    &&& storage_declared(d.storage_array_loop, d2.storage_array_loop, vd)
    &&& mutability_declared(d.state_variable_mutability, d2.state_variable_mutability, ctx, vd)
    &&& unused_declared(d.unused_state_variables, d2.unused_state_variables, ctx)
    &&& encoding_declared(d.abi_encoding, d2.abi_encoding, vd)
}

/// What the analyses' visits of a function do before its body, as one step of the walk.
pub open spec fn function_entered_step(d: AstVisitorData, o: Output, d2: AstVisitorData, o2: Output, ctx: DefCtx, f: FunctionDefinition, ok: bool) -> bool {
    &&& d2 == (AstVisitorData { storage_array_loop: d2.storage_array_loop, check_effects_interactions: d2.check_effects_interactions, unchecked_erc20_transfer: d2.unchecked_erc20_transfer, missing_return: d2.missing_return, ..d })
    &&& d2.wf()
    &&& o2.wf()
    &&& o.extends(o2)
    &&& only_under(o, o2, unit_path(*ctx.unit))
    &&& ok <==> line_ok(*ctx.unit, if_selected(d.abstract_contracts is Some, abstract_finding(ctx, f)))
        && line_ok(*ctx.unit, if_selected(d.unrestricted_setter_functions is Some, setter_finding(ctx, f)))
    &&& ok ==> o2.report.entries_of(unit_path(*ctx.unit)) == o.report.entries_of(unit_path(*ctx.unit))
        + opt_entry(*ctx.unit, if_selected(d.abstract_contracts is Some, abstract_finding(ctx, f))) + opt_entry(
        *ctx.unit,
        if_selected(d.unrestricted_setter_functions is Some, setter_finding(ctx, f)),
    )
    &&& ok ==> printed_texts(o2) == printed_texts(o) + getter_lines(
        d.redundant_getter_function is Some,
        ctx,
        f,
    ) + only_if(d.state_variable_shadowing is Some, shadowing_lines(ctx.units@, *ctx.contract, f))
    &&& ok ==> function_entered(d, d2, f)
}

/// What the analyses' leaving of a function does after its body, as one step of the walk.
pub open spec fn function_left_step(d: AstVisitorData, o: Output, d2: AstVisitorData, o2: Output, ctx: DefCtx, f: FunctionDefinition, ok: bool) -> bool {
    &&& d2.wf()
    &&& o2.wf()
    &&& o.extends(o2)
    &&& only_under(o, o2, unit_path(*ctx.unit))
    &&& d2 == d
    &&& o2.report == o.report
    &&& ok <==> line_ok(*ctx.unit, storage_loop_finding(d.storage_array_loop, ctx, f)) && line_ok(
        *ctx.unit,
        effects_finding(d.check_effects_interactions, ctx, f),
    ) && line_ok(*ctx.unit, erc20_finding(d.unchecked_erc20_transfer, ctx, f))
    &&& ok ==> printed_texts(o2) == printed_texts(o) + opt_line(
        *ctx.unit,
        storage_loop_finding(d.storage_array_loop, ctx, f),
    ) + opt_line(*ctx.unit, effects_finding(d.check_effects_interactions, ctx, f)) + opt_line(
        *ctx.unit,
        erc20_finding(d.unchecked_erc20_transfer, ctx, f),
    ) + missing_lines(d.missing_return, ctx, f)
}

/// What the analyses' leaving of contract `c` does after its definitions, as one step of the walk.
pub open spec fn contract_left_step(d: AstVisitorData, o: Output, d2: AstVisitorData, o2: Output, uctx: UnitCtx, c: ContractDefinition, ok: bool) -> bool {
    &&& d2.wf()
    &&& o2.wf()
    &&& o.extends(o2)
    &&& only_under(o, o2, unit_path(*uctx.unit))
    &&& d2 == d
    &&& ok <==> mutability_result(d.state_variable_mutability, *uctx.unit, c) is Ok && unreferenced_result(
        d.unused_state_variables,
        *uctx.unit,
        c,
    ) is Ok
    &&& ok ==> o2.report.entries_of(unit_path(*uctx.unit)) == o.report.entries_of(unit_path(*uctx.unit))
        + mutability_result(d.state_variable_mutability, *uctx.unit, c)->Ok_0
    &&& ok ==> printed_texts(o2) == printed_texts(o) + unreferenced_result(
        d.unused_state_variables,
        *uctx.unit,
        c,
    )->Ok_0
}

/// The context of source unit `unit` of `units`.
pub open spec fn unit_ctx<'a>(units: &'a Vec<SourceUnit>, unit: &'a SourceUnit) -> UnitCtx<'a> {
    UnitCtx { units, unit }
}

/// What `tight_variable_packing` does on a struct definition.
pub open spec fn struct_packed(d: AstVisitorData, d2: AstVisitorData, o: Output, o2: Output, units: &Vec<SourceUnit>, st: StructDefinition) -> bool {
    &&& d2 == (AstVisitorData { tight_variable_packing: d2.tight_variable_packing, ..d })
    &&& match (d.tight_variable_packing, d2.tight_variable_packing) {
        (Some(v), Some(w)) => {
            &&& o2.wf()
            &&& o.extends(o2)
            &&& o2.report == o.report
            &&& w.checked@.contains(st.info.id)
            &&& v.checked@.contains(st.info.id) ==> o2 == o
            &&& !v.checked@.contains(st.info.id) ==> lines_of(o2.printed@) == lines_of(o.printed@) + member_sizes(units@, st.members@).1
                + if is_loose(member_sizes(units@, st.members@).0) {
                seq![loose_struct_line(st.name@)]
            } else {
                Seq::empty()
            }
        },
        (None, None) => o2 == o,
        _ => false,
    }
}

/// The walk of definition `ctx.node` of a contract: a using-for directive,
/// struct or state variable is visited; a function is entered, its body
/// walked and the function left; a modifier's body is walked.
pub open spec fn walk_node(d: AstVisitorData, o: Output, ctx: DefCtx, d2: AstVisitorData, o2: Output, ok: bool) -> bool {
    match *ctx.node {
        ContractDefinitionNode::UsingForDirective(u) => d2 == d && match d.invalid_using_for_directives {
            Some(_) => o2.wf() && o.extends(o2) && printed_at_if(
                o,
                o2,
                *ctx.unit,
                u.info.src@,
                is_invalid_using(ctx.units@, u),
                "The `"@ + ctx.contract.name@ + "` "@ + contract_kind_text(ctx.contract.kind)
                    + " contains an invalid using-for directive: `"@ + spec_node_text(*ctx.unit, u.info.src@) + "`"@,
                ok,
            ),
            None => stays(d, o, d2, o2, ok),
        },
        ContractDefinitionNode::StructDefinition(st) => ok && struct_packed(d, d2, o, o2, ctx.units, st),
        ContractDefinitionNode::VariableDeclaration(vd) => ok && variable_visited(d, o, d2, o2, ctx, vd),
        ContractDefinitionNode::FunctionDefinition(f) => exists|d3: AstVisitorData, o3: Output, ok3: bool|
            #[trigger] walk_point(d3, o3, ok3) && function_entered_step(d, o, d3, o3, ctx, f, ok3) && then_walk(
                ok3,
                d3,
                o3,
                d2,
                o2,
                ok,
                exists|d4: AstVisitorData, o4: Output, ok4: bool|
                    #[trigger] walk_point(d4, o4, ok4) && match f.body {
                        Some(b) => walk_block(d3, o3, ctx, Seq::empty(), b, d4, o4, ok4),
                        None => stays(d3, o3, d4, o4, ok4),
                    } && then_walk(ok4, d4, o4, d2, o2, ok, function_left_step(d4, o4, d2, o2, ctx, f, ok)),
            ),
        ContractDefinitionNode::ModifierDefinition(m) => walk_block(d, o, ctx, Seq::empty(), m.body, d2, o2, ok),
        _ => stays(d, o, d2, o2, ok),
    }
}

/// The walk of the first `k` definitions of contract `c`, one after another.
pub open spec fn walk_nodes(
    d: AstVisitorData,
    o: Output,
    uctx: UnitCtx,
    c: &ContractDefinition,
    k: nat,
    d2: AstVisitorData,
    o2: Output,
    ok: bool,
) -> bool
    decreases k,
{
    if k == 0 {
        stays(d, o, d2, o2, ok)
    } else {
        exists|dm: AstVisitorData, om: Output, okm: bool|
            #[trigger] walk_point(dm, om, okm) && walk_nodes(d, o, uctx, c, (k - 1) as nat, dm, om, okm) && then_walk(
                okm,
                dm,
                om,
                d2,
                o2,
                ok,
                walk_node(dm, om, node_ctx(uctx, c, &c.nodes@[k - 1]), d2, o2, ok),
            )
    }
}

/// The walk of contract `c`: the contract is entered, each definition walked,
/// and the contract left.
pub open spec fn walk_contract(d: AstVisitorData, o: Output, uctx: UnitCtx, c: &ContractDefinition, d2: AstVisitorData, o2: Output, ok: bool) -> bool {
    exists|d1: AstVisitorData, o1: Output|
        #[trigger] walk_point(d1, o1, true) && contract_entered_step(d, o, d1, o1, uctx.units, *c) && exists|
            d3: AstVisitorData,
            o3: Output,
            ok3: bool,
        |
            #[trigger] walk_point(d3, o3, ok3) && walk_nodes(d1, o1, uctx, c, c.nodes@.len(), d3, o3, ok3) && then_walk(
                ok3,
                d3,
                o3,
                d2,
                o2,
                ok,
                contract_left_step(d3, o3, d2, o2, uctx, *c, ok),
            )
}

/// The walk of node `n` of a source unit.
pub open spec fn walk_unit_node(d: AstVisitorData, o: Output, uctx: UnitCtx, n: &SourceUnitNode, d2: AstVisitorData, o2: Output, ok: bool) -> bool {
    match *n {
        SourceUnitNode::PragmaDirective(p) => d2 == d && match d.floating_solidity_version {
            Some(_) => o2.wf() && o.extends(o2) && pragma_reported(o, o2, uctx, p, ok),
            None => stays(d, o, d2, o2, ok),
        },
        SourceUnitNode::ImportDirective(imp) => d2 == (AstVisitorData { redundant_imports: d2.redundant_imports, ..d }) && match (
            d.redundant_imports,
            d2.redundant_imports,
        ) {
            (Some(v), Some(w)) => o2.wf() && o.extends(o2) && w.wf() && RedundantImportsVisitor::import_noted(v, w, o, o2, uctx, imp, ok),
            (None, None) => stays(d, o, d2, o2, ok),
            _ => false,
        },
        SourceUnitNode::ContractDefinition(c) => walk_contract(d, o, uctx, &c, d2, o2, ok),
        SourceUnitNode::StructDefinition(st) => ok && struct_packed(d, d2, o, o2, uctx.units, st),
        _ => stays(d, o, d2, o2, ok),
    }
}

/// The walk of the first `k` nodes of a source unit, one after another.
pub open spec fn walk_unit_nodes(d: AstVisitorData, o: Output, uctx: UnitCtx, k: nat, d2: AstVisitorData, o2: Output, ok: bool) -> bool
    decreases k,
{
    if k == 0 {
        stays(d, o, d2, o2, ok)
    } else {
        exists|dm: AstVisitorData, om: Output, okm: bool|
            #[trigger] walk_point(dm, om, okm) && walk_unit_nodes(d, o, uctx, (k - 1) as nat, dm, om, okm) && then_walk(
                okm,
                dm,
                om,
                d2,
                o2,
                ok,
                walk_unit_node(dm, om, uctx, &uctx.unit.nodes@[k - 1], d2, o2, ok),
            )
    }
}

/// What `no_spdx_identifier` does on a source unit.
pub open spec fn spdx_visited(d: AstVisitorData, o: Output, o2: Output, unit: SourceUnit) -> bool {
    match d.no_spdx_identifier {
        Some(_) => {
            &&& o2.wf()
            &&& o.extends(o2)
            &&& o2.printed == o.printed
            &&& o2.report.entries_of(unit_path(unit)) == o.report.entries_of(unit_path(unit)) + spdx_entries(true, unit)
            &&& only_under(o, o2, unit_path(unit))
        },
        None => o2 == o,
    }
}

/// The walk of source unit `unit`: the unit itself, then its nodes in order.
pub open spec fn walk_unit(d: AstVisitorData, o: Output, units: &Vec<SourceUnit>, unit: &SourceUnit, d2: AstVisitorData, o2: Output, ok: bool) -> bool {
    exists|o1: Output|
        #[trigger] walk_point(d, o1, true) && spdx_visited(d, o, o1, *unit) && walk_unit_nodes(
            d,
            o1,
            unit_ctx(units, unit),
            unit.nodes@.len(),
            d2,
            o2,
            ok,
        )
}

/// The walk of the source units at `order`, one after another.
pub open spec fn walk_order(d: AstVisitorData, o: Output, units: &Vec<SourceUnit>, order: Seq<int>, d2: AstVisitorData, o2: Output, ok: bool) -> bool
    decreases order.len(),
{
    if order.len() == 0 {
        stays(d, o, d2, o2, ok)
    } else {
        exists|dm: AstVisitorData, om: Output, okm: bool|
            #[trigger] walk_point(dm, om, okm) && walk_order(d, o, units, order.drop_last(), dm, om, okm) && then_walk(
                okm,
                dm,
                om,
                d2,
                o2,
                ok,
                walk_unit(dm, om, units, &units@[order.last()], d2, o2, ok),
            )
    }
}

/// A walk of contract definitions that fails on the first `k` fails on the
/// first `n`.
proof fn lemma_walk_nodes_stop(
    d: AstVisitorData,
    o: Output,
    uctx: UnitCtx,
    c: &ContractDefinition,
    k: nat,
    n: nat,
    d2: AstVisitorData,
    o2: Output,
)
    requires
        k <= n,
        walk_nodes(d, o, uctx, c, k, d2, o2, false),
    ensures
        walk_nodes(d, o, uctx, c, n, d2, o2, false),
    decreases n - k,
{
    if k < n {
        lemma_point(d2, o2, false);
        assert(walk_nodes(d, o, uctx, c, ((k + 1) as nat - 1) as nat, d2, o2, false));
        assert(walk_nodes(d, o, uctx, c, (k + 1) as nat, d2, o2, false));
        lemma_walk_nodes_stop(d, o, uctx, c, (k + 1) as nat, n, d2, o2);
    }
}

/// A walk of source unit nodes that fails on the first `k` fails on the
/// first `n`.
proof fn lemma_walk_unit_nodes_stop(d: AstVisitorData, o: Output, uctx: UnitCtx, k: nat, n: nat, d2: AstVisitorData, o2: Output)
    requires
        k <= n,
        walk_unit_nodes(d, o, uctx, k, d2, o2, false),
    ensures
        walk_unit_nodes(d, o, uctx, n, d2, o2, false),
    decreases n - k,
{
    if k < n {
        lemma_point(d2, o2, false);
        assert(walk_unit_nodes(d, o, uctx, ((k + 1) as nat - 1) as nat, d2, o2, false));
        assert(walk_unit_nodes(d, o, uctx, (k + 1) as nat, d2, o2, false));
        lemma_walk_unit_nodes_stop(d, o, uctx, (k + 1) as nat, n, d2, o2);
    }
}

/// A walk of source units that fails on a prefix of `order` fails on the
/// whole.
proof fn lemma_walk_order_stop(
    d: AstVisitorData,
    o: Output,
    units: &Vec<SourceUnit>,
    order: Seq<int>,
    k: int,
    d2: AstVisitorData,
    o2: Output,
)
    requires
        0 <= k <= order.len(),
        walk_order(d, o, units, order.subrange(0, k), d2, o2, false),
    ensures
        walk_order(d, o, units, order, d2, o2, false),
    decreases order.len() - k,
{
    if k < order.len() {
        let p = order.subrange(0, k + 1);
        assert(p.drop_last() =~= order.subrange(0, k));
        lemma_point(d2, o2, false);
        assert(walk_order(d, o, units, p.drop_last(), d2, o2, false));
        assert(walk_order(d, o, units, p, d2, o2, false));
        lemma_walk_order_stop(d, o, units, order, k + 1, d2, o2);
    } else {
        assert(order.subrange(0, k) =~= order);
    }
}

/// The warnings `check_effects_interactions` prints on an assignment.
pub open spec fn effects_assignment_lines(v: Option<CheckEffectsInteractionsVisitor>, ctx: DefCtx, a: Assignment) -> Seq<Seq<char>> {
    match v {
        Some(x) => x.assignment_warnings(ctx, a),
        None => Seq::empty(),
    }
}

impl AstVisitorData {
    pub open spec fn wf(&self) -> bool {
        &&& self.redundant_imports matches Some(v) ==> v.wf()
        &&& self.unchecked_erc20_transfer matches Some(v) ==> v.wf()
        &&& self.state_variable_mutability matches Some(v) ==> v.wf()
    }

    /// The analyses' visits of a contract, before its definitions.
    pub fn hooks_enter_contract(&mut self, units: &Vec<SourceUnit>, c: &ContractDefinition, out: &mut Output)
        requires
            old(self).wf(),
            old(out).wf(),
        ensures
            contract_entered_step(*old(self), *old(out), *final(self), *final(out), units, *c),
    {
        proof { Output::lemma_extends_refl(*out); }
        let ghost o0 = *out;
        match &mut self.tight_variable_packing {
            Some(v) => {
                let ghost v0 = *v;
                v.visit_contract_definition(units, c, out);
                proof {
                    if c.kind != ContractKind::Contract || v0.checked@.contains(c.info.id) {
                        assert(printed_texts(*out) + Seq::<Seq<char>>::empty() =~= printed_texts(*out));
                    } else {
                        assert(lines_of(out.printed@) =~= printed_texts(*out));
                        assert(lines_of(o0.printed@) =~= printed_texts(o0));
                    }
                }
            },
            None => {
                assert(printed_texts(*out) + Seq::<Seq<char>>::empty() =~= printed_texts(*out));
            },
        }
        match &mut self.state_variable_mutability {
            Some(v) => v.visit_contract_definition(c),
            None => {},
        }
        match &mut self.unused_state_variables {
            Some(v) => v.visit_contract_definition(c),
            None => {},
        }
        proof {
            assert(printed_texts(*out) == printed_texts(o0) + packing_lines(old(self).tight_variable_packing, units@, *c));
            assert(mutability_entered(old(self).state_variable_mutability, self.state_variable_mutability, c.info.id));
            assert(unused_entered(old(self).unused_state_variables, self.unused_state_variables, c.info.id));
        }
    }

    /// The analyses' visits of a state variable.
    pub fn hooks_variable_declaration(&mut self, ctx: &DefCtx, vd: &VariableDeclaration, out: &mut Output)
        requires
            old(self).wf(),
            old(out).wf(),
        ensures
            variable_visited(*old(self), *old(out), *final(self), *final(out), *ctx, *vd),
    {
        proof { Output::lemma_extends_refl(*out); }
        match &mut self.storage_array_loop {
            Some(v) => v.visit_variable_declaration(vd),
            None => {},
        }
        match &mut self.state_variable_mutability {
            Some(v) => v.visit_variable_declaration(ctx, vd),
            None => {},
        }
        match &mut self.unused_state_variables {
            Some(v) => v.visit_variable_declaration(ctx),
            None => {},
        }
        match &mut self.abi_encoding {
            Some(v) => v.visit_variable_declaration(vd),
            None => {},
        }
    }

    /// The analyses' visits of a function, before its body.
    pub fn hooks_enter_function(&mut self, ctx: &DefCtx, f: &FunctionDefinition, out: &mut Output) -> (r: Result<(), AnalysisError>)
        requires
            old(self).wf(),
            old(out).wf(),
        ensures
            function_entered_step(*old(self), *old(out), *final(self), *final(out), *ctx, *f, r is Ok),
    {
        proof { Output::lemma_extends_refl(*out); }
        let ghost o0 = *out;
        let ghost pa = if_selected(self.abstract_contracts is Some, abstract_finding(*ctx, *f));
        let ghost pu = if_selected(self.unrestricted_setter_functions is Some, setter_finding(*ctx, *f));
        match &mut self.abstract_contracts {
            Some(v) => {
                let res = v.visit_function_definition(ctx, f, out);
                proof {
                    lemma_reported_step(
                        o0,
                        *out,
                        *ctx.unit,
                        f.info.src@,
                        spec_internal_constructor(*ctx.contract, *f),
                        location_text(*ctx.contract, *ctx.node) + " is marked "@ + visibility_text(f.visibility)
                            + " instead of marking `"@ + ctx.contract.name@ + "` as abstract"@,
                        res is Ok,
                    );
                }
                res?
            },
            None => {
                assert(o0.report.entries_of(unit_path(*ctx.unit)) + opt_entry(*ctx.unit, pa) =~= o0.report.entries_of(
                    unit_path(*ctx.unit),
                ));
            },
        }
        let ghost o1 = *out;
        assert(printed_texts(o1) == printed_texts(o0));
        match &mut self.redundant_getter_function {
            Some(v) => {
                v.visit_function_definition(ctx, f, out);
                assert(printed_texts(*out) =~= printed_texts(o1) + getter_lines(true, *ctx, *f));
            },
            None => {
                assert(printed_texts(*out) =~= printed_texts(o1) + getter_lines(false, *ctx, *f));
            },
        }
        let ghost o2 = *out;
        match &mut self.state_variable_shadowing {
            Some(v) => {
                v.visit_function_definition(ctx, f, out);
                assert(texts(out.printed@) =~= printed_texts(*out));
                assert(texts(o2.printed@) =~= printed_texts(o2));
            },
            None => {
                assert(printed_texts(*out) =~= printed_texts(o2) + only_if(false, shadowing_lines(ctx.units@, *ctx.contract, *f)));
            },
        }
        let ghost o3 = *out;
        match &mut self.storage_array_loop {
            Some(v) => v.visit_function_definition(f),
            None => {},
        }
        match &mut self.check_effects_interactions {
            Some(v) => v.visit_function_definition(),
            None => {},
        }
        match &mut self.unchecked_erc20_transfer {
            Some(v) => v.visit_function_definition(f),
            None => {},
        }
        match &mut self.missing_return {
            Some(v) => v.visit_function_definition(f),
            None => {},
        }
        assert(o3 == *out);
        match &mut self.unrestricted_setter_functions {
            Some(v) => {
                let res = v.visit_function_definition(ctx, f, out);
                proof {
                    lemma_reported_step(
                        o3,
                        *out,
                        *ctx.unit,
                        f.info.src@,
                        spec_unrestricted_setter(*f),
                        location_text(*ctx.contract, *ctx.node) + " is an unprotected setter function"@,
                        res is Ok,
                    );
                }
                res?
            },
            None => {
                assert(o3.report.entries_of(unit_path(*ctx.unit)) + opt_entry(*ctx.unit, pu) =~= o3.report.entries_of(
                    unit_path(*ctx.unit),
                ));
            },
        }
        Ok(())
    }

    /// The analyses' leaving of a function, after its body.
    pub fn hooks_leave_function(&mut self, ctx: &DefCtx, f: &FunctionDefinition, out: &mut Output) -> (r: Result<(), AnalysisError>)
        requires
            old(self).wf(),
            old(out).wf(),
        ensures
            function_left_step(*old(self), *old(out), *final(self), *final(out), *ctx, *f, r is Ok),
    {
        proof { Output::lemma_extends_refl(*out); }
        let ghost o0 = *out;
        let ghost p1 = storage_loop_finding(self.storage_array_loop, *ctx, *f);
        let ghost p2 = effects_finding(self.check_effects_interactions, *ctx, *f);
        let ghost p3 = erc20_finding(self.unchecked_erc20_transfer, *ctx, *f);
        match &mut self.storage_array_loop {
            Some(v) => {
                let ghost v0 = *v;
                let res = v.leave_function_definition(ctx, f, out);
                proof {
                    lemma_printed_step(o0, *out, *ctx.unit, f.info.src@, v0.loops(f.info.id), loop_text(*ctx.contract, *f), res is Ok);
                }
                res?
            },
            None => {
                assert(printed_texts(o0) + opt_line(*ctx.unit, p1) =~= printed_texts(o0));
            },
        }
        let ghost o1 = *out;
        match &mut self.check_effects_interactions {
            Some(v) => {
                let ghost v0 = *v;
                let res = v.leave_function_definition(ctx, f, out);
                proof {
                    lemma_printed_step(
                        o1,
                        *out,
                        *ctx.unit,
                        f.info.src@,
                        f.kind != FunctionKind::Constructor && v0.makes_external_call && v0.makes_post_external_call_assignment,
                        pattern_text(*ctx.contract, *f),
                        res is Ok,
                    );
                }
                res?
            },
            None => {
                assert(printed_texts(o1) + opt_line(*ctx.unit, p2) =~= printed_texts(o1));
            },
        }
        let ghost o2 = *out;
        match &mut self.unchecked_erc20_transfer {
            Some(v) => {
                let ghost v0 = *v;
                let res = v.leave_function_definition(ctx, f, out);
                proof {
                    lemma_printed_step(
                        o2,
                        *out,
                        *ctx.unit,
                        f.info.src@,
                        v0.count_of(f.info.id) matches Some(c) && c > 0,
                        unchecked_text(location_text(*ctx.contract, *ctx.node), v0.count_of(f.info.id)->Some_0),
                        res is Ok,
                    );
                }
                res?
            },
            None => {
                assert(printed_texts(o2) + opt_line(*ctx.unit, p3) =~= printed_texts(o2));
            },
        }
        let ghost o3 = *out;
        match &mut self.missing_return {
            Some(v) => {
                v.leave_function_definition(ctx, f, out);
                assert(printed_texts(*out) =~= printed_texts(o3) + missing_lines(self.missing_return, *ctx, *f));
            },
            None => {
                assert(printed_texts(*out) =~= printed_texts(o3) + missing_lines(self.missing_return, *ctx, *f));
            },
        }
        assert(printed_texts(o0) + opt_line(*ctx.unit, p1) + opt_line(*ctx.unit, p2) + opt_line(*ctx.unit, p3)
            =~= printed_texts(o3));
        Ok(())
    }

    /// The analyses' leaving of a contract, after its definitions.
    pub fn hooks_leave_contract(&mut self, uctx: &UnitCtx, c: &ContractDefinition, out: &mut Output) -> (r: Result<(), AnalysisError>)
        requires
            old(self).wf(),
            old(out).wf(),
        ensures
            contract_left_step(*old(self), *old(out), *final(self), *final(out), *uctx, *c, r is Ok),
    {
        proof { Output::lemma_extends_refl(*out); }
        let ghost o0 = *out;
        match &mut self.state_variable_mutability {
            Some(v) => v.leave_contract_definition(uctx, c, out)?,
            None => {
                assert(o0.report.entries_of(unit_path(*uctx.unit)) + Seq::<EntryView>::empty() =~= o0.report.entries_of(
                    unit_path(*uctx.unit),
                ));
            },
        }
        let ghost o1 = *out;
        assert(printed_texts(o1) == printed_texts(o0));
        match &mut self.unused_state_variables {
            Some(v) => v.leave_contract_definition(uctx, c, out)?,
            None => {
                assert(printed_texts(o1) + Seq::<Seq<char>>::empty() =~= printed_texts(o1));
            },
        }
        Ok(())
    }

    /// The analyses' visits of a statement.
    #[verifier::rlimit(100)]
    pub fn hooks_statement(&mut self, ctx: &DefCtx, s: &Statement, out: &mut Output) -> (r: Result<(), AnalysisError>)
        requires
            old(self).wf(),
            old(out).wf(),
        ensures
            statement_visited(*old(self), *old(out), *final(self), *final(out), *ctx, *s, r is Ok),
    {
        proof { Output::lemma_extends_refl(*out); }
        let ghost path = unit_path(*ctx.unit);
        let ghost o0 = *out;
        let ghost q1 = if_selected(self.unused_return is Some, dropped_finding(*ctx, *s));
        let ghost q2 = if_selected(self.ineffectual_statements is Some, ineffectual_finding(*ctx, *s));
        let ghost q3 = if_selected(self.selfdestruct_usage is Some, selfdestruct_finding(*ctx, *s));
        match &mut self.unused_return {
            Some(v) => {
                let res = v.visit_statement(ctx, s, out);
                proof {
                    lemma_reported_step(
                        o0,
                        *out,
                        *ctx.unit,
                        call_src(*s),
                        dropped_return(ctx.units@, *s) is Some,
                        dropped_text(
                            *ctx.contract,
                            *ctx.node,
                            dropped_return(ctx.units@, *s)->Some_0.0,
                            dropped_return(ctx.units@, *s)->Some_0.1,
                        ),
                        res is Ok,
                    );
                }
                res?
            },
            None => {
                assert(o0.report.entries_of(path) + opt_entry(*ctx.unit, q1) =~= o0.report.entries_of(path));
            },
        }
        let ghost o1 = *out;
        match &mut self.check_effects_interactions {
            Some(v) => {
                v.visit_statement(ctx, s, out);
                assert(printed_texts(*out) =~= printed_texts(o1) + effects_warnings(true, *ctx, *s));
            },
            None => {
                assert(printed_texts(*out) =~= printed_texts(o1) + effects_warnings(false, *ctx, *s));
            },
        }
        let ghost o2 = *out;
        match &mut self.ineffectual_statements {
            Some(v) => {
                let res = v.visit_statement(ctx, s, out);
                proof {
                    match s {
                        Statement::ExpressionStatement { expression } => {
                            lemma_reported_step(
                                o2,
                                *out,
                                *ctx.unit,
                                info_of(*expression).src@,
                                ineffectual_kind(*expression) is Some,
                                location_text(*ctx.contract, *ctx.node) + " contains an ineffectual "@ + ineffectual_kind(
                                    *expression,
                                )->Some_0 + " statement: `"@ + spec_node_text(*ctx.unit, info_of(*expression).src@) + "`"@,
                                res is Ok,
                            );
                        },
                        _ => {
                            assert(o2.report.entries_of(path) + opt_entry(*ctx.unit, q2) =~= o2.report.entries_of(path));
                        },
                    }
                }
                res?
            },
            None => {
                assert(o2.report.entries_of(path) + opt_entry(*ctx.unit, q2) =~= o2.report.entries_of(path));
            },
        }
        let ghost o3 = *out;
        match &mut self.selfdestruct_usage {
            Some(v) => {
                let res = v.visit_statement(ctx, s, out);
                proof {
                    lemma_reported_step(
                        o3,
                        *out,
                        *ctx.unit,
                        selfdestruct_src(*s),
                        spec_selfdestruct_call(*s),
                        location_text(*ctx.contract, *ctx.node) + " contains `selfdestruct` usage"@,
                        res is Ok,
                    );
                }
                res?
            },
            None => {
                assert(o3.report.entries_of(path) + opt_entry(*ctx.unit, q3) =~= o3.report.entries_of(path));
            },
        }
        proof {
            assert(o0.report.entries_of(path) + opt_entry(*ctx.unit, q1) + opt_entry(*ctx.unit, q2) + opt_entry(*ctx.unit, q3)
                =~= out.report.entries_of(path));
        }
        Ok(())
    }

    /// The analyses' visits of an `if` statement.
    pub fn hooks_if(&mut self, ctx: &DefCtx, st: &IfStatement, out: &mut Output) -> (r: Result<(), AnalysisError>)
        requires
            old(self).wf(),
            old(out).wf(),
        ensures
            if_visited(*old(self), *old(out), *final(self), *final(out), *ctx, *st, r is Ok),
    {
        proof { Output::lemma_extends_refl(*out); }
        let ghost o0 = *out;
        match &mut self.unchecked_erc20_transfer {
            Some(v) => v.visit_if_statement(st),
            None => {},
        }
        match &mut self.comparison_utilization {
            Some(v) => v.visit_if_statement(st),
            None => {},
        }
        match &mut self.assignment_comparisons {
            Some(v) => {
                let res = v.visit_if_statement(ctx, st, out);
                proof {
                    if res is Ok && definition_id(*ctx.node) is Some && contains_op(st.condition, "="@) {
                        assert(printed_texts(*out) =~= printed_texts(o0).push(out.printed@.last()@));
                    } else {
                        assert(printed_texts(*out) =~= printed_texts(o0) + Seq::<Seq<char>>::empty());
                    }
                }
                res?
            },
            None => {
                assert(printed_texts(*out) =~= printed_texts(o0) + Seq::<Seq<char>>::empty());
            },
        }
        proof {
            assert(self.wf());
            assert(old(out).extends(*out));
            assert(*self == (AstVisitorData { unchecked_erc20_transfer: self.unchecked_erc20_transfer, ..*old(self) }));
            assert(match (old(self).unchecked_erc20_transfer, self.unchecked_erc20_transfer) {
                (Some(v), Some(w)) => UncheckedERC20TransferVisitor::visited_if(v, w, *st),
                (None, None) => true,
                _ => false,
            });
            assert(out.report == old(out).report);
            assert(out.wf());
            assert(only_under(*old(out), *out, unit_path(*ctx.unit)));
            let a = old(self).assignment_comparisons is Some && definition_id(*ctx.node) is Some && contains_op(st.condition, "="@);
            assert(a ==> spec_source_line(*ctx.unit, st.info.src@) is Ok);
            assert(printed_texts(*out) == printed_texts(*old(out)) + only_if(
                a,
                seq![
                    line_text(
                        *ctx.unit,
                        st.info.src@,
                        assignment_text(
                            location_text(*ctx.contract, *ctx.node),
                            "an if statement"@,
                            spec_node_text(*ctx.unit, info_of(st.condition).src@),
                        ),
                    ),
                ],
            ));
        }
        Ok(())
    }

    /// The analyses' visits of a `for` statement.
    pub fn hooks_for(&mut self, ctx: &DefCtx, st: &ForStatement, out: &mut Output) -> (r: Result<(), AnalysisError>)
        requires
            old(self).wf(),
            old(out).wf(),
        ensures
            for_visited(*old(self), *old(out), *final(self), *final(out), *ctx, *st, r is Ok),
    {
        proof { Output::lemma_extends_refl(*out); }
        match &mut self.storage_array_loop {
            Some(v) => v.visit_for_statement(ctx, st),
            None => {},
        }
        match &mut self.external_calls_in_loop {
            Some(v) => v.visit_for_statement(st),
            None => {},
        }
        let ghost o0 = *out;
        match &mut self.assignment_comparisons {
            Some(v) => {
                let res = v.visit_for_statement(ctx, st, out);
                proof {
                    if st.condition is Some {
                        let c = st.condition->Some_0;
                        lemma_printed_step(o0, *out, *ctx.unit, st.info.src@, definition_id(*ctx.node) is Some && contains_op(c, "="@), assignment_text(location_text(*ctx.contract, *ctx.node), "a for statement"@, spec_node_text(*ctx.unit, info_of(c).src@)), res is Ok);
                    }
                }
                if res.is_err() {
                    return res;
                }
            },
            None => {},
        }
        let ghost o1 = *out;
        proof {
            assert(printed_texts(o1) =~= printed_texts(o0) + opt_line(*ctx.unit, if_selected(old(self).assignment_comparisons is Some, for_assign_finding(*ctx, *st))));
        }
        match &mut self.redundant_state_variable_access {
            Some(v) => {
                let res = v.visit_for_statement(ctx, st, out);
                proof {
                    if st.condition is Some {
                        let c = st.condition->Some_0;
                        lemma_printed_step(o1, *out, *ctx.unit, info_of(c).src@, reads_state(ctx.units@, *ctx.contract, c), storage_text(location_text(*ctx.contract, *ctx.node), "a for statement with a condition"@, *ctx.unit, c), res is Ok);
                    }
                }
                if res.is_err() {
                    return res;
                }
            },
            None => {},
        }
        proof {
            assert(printed_texts(*out) =~= printed_texts(o1) + opt_line(*ctx.unit, if_selected(old(self).redundant_state_variable_access is Some, for_state_finding(*ctx, *st))));
        }
        Ok(())
    }

    /// The analyses' visits of a `while` statement.
    pub fn hooks_while(&mut self, ctx: &DefCtx, st: &WhileStatement, out: &mut Output) -> (r: Result<(), AnalysisError>)
        requires
            old(self).wf(),
            old(out).wf(),
        ensures
            while_visited(*old(self), *old(out), *final(self), *final(out), *ctx, *st, r is Ok),
    {
        proof { Output::lemma_extends_refl(*out); }
        match &mut self.storage_array_loop {
            Some(v) => v.visit_while_statement(ctx, st),
            None => {},
        }
        match &mut self.external_calls_in_loop {
            Some(v) => v.visit_while_statement(st),
            None => {},
        }
        let ghost o0 = *out;
        match &mut self.assignment_comparisons {
            Some(v) => {
                let res = v.visit_while_statement(ctx, st, out);
                proof {
                    lemma_printed_step(o0, *out, *ctx.unit, st.info.src@, definition_id(*ctx.node) is Some && contains_op(st.condition, "="@), assignment_text(location_text(*ctx.contract, *ctx.node), "a while statement"@, spec_node_text(*ctx.unit, info_of(st.condition).src@)), res is Ok);
                }
                if res.is_err() {
                    return res;
                }
            },
            None => {},
        }
        let ghost o1 = *out;
        proof {
            assert(printed_texts(o1) =~= printed_texts(o0) + opt_line(*ctx.unit, if_selected(old(self).assignment_comparisons is Some, while_assign_finding(*ctx, *st))));
        }
        match &mut self.redundant_state_variable_access {
            Some(v) => {
                let res = v.visit_while_statement(ctx, st, out);
                proof {
                    lemma_printed_step(o1, *out, *ctx.unit, info_of(st.condition).src@, reads_state(ctx.units@, *ctx.contract, st.condition), storage_text(location_text(*ctx.contract, *ctx.node), "a while statement with a condition"@, *ctx.unit, st.condition), res is Ok);
                }
                if res.is_err() {
                    return res;
                }
            },
            None => {},
        }
        proof {
            assert(printed_texts(*out) =~= printed_texts(o1) + opt_line(*ctx.unit, if_selected(old(self).redundant_state_variable_access is Some, while_state_finding(*ctx, *st))));
        }
        Ok(())
    }

    /// The analyses' visits of an identifier.
    pub fn hooks_identifier(&mut self, ctx: &DefCtx, id: &Identifier, out: &mut Output) -> (r: Result<(), AnalysisError>)
        requires
            old(self).wf(),
            old(out).wf(),
        ensures
            *final(self) == (AstVisitorData { check_effects_interactions: final(self).check_effects_interactions, unused_state_variables: final(self).unused_state_variables, ..*old(self) }),
            final(self).wf(),
            final(out).wf(),
            old(out).extends(*final(out)),
            only_under(*old(out), *final(out), unit_path(*ctx.unit)),
            final(self).external_calls_in_loop == old(self).external_calls_in_loop,
            printed_two(
                *old(out),
                *final(out),
                *ctx.unit,
                loop_finding(old(self).external_calls_in_loop, *ctx, Some(id.referenced_declaration), id.info.src@),
                None,
                r is Ok,
            ),
            r is Ok ==> effects_noted(
                old(self).check_effects_interactions,
                final(self).check_effects_interactions,
                *ctx,
                Some(id.referenced_declaration),
            ),
            r is Ok ==> unused_marked(
                old(self).unused_state_variables,
                final(self).unused_state_variables,
                *ctx,
                Some(id.referenced_declaration),
            ),
    {
        proof { Output::lemma_extends_refl(*out); }
        let ghost o0 = *out;
        match &mut self.external_calls_in_loop {
            Some(v) => {
                let ghost v0 = *v;
                let res = v.visit_identifier(ctx, id, out);
                proof {
                    lemma_printed_step(
                        o0,
                        *out,
                        *ctx.unit,
                        id.info.src@,
                        v0.calls_external(*ctx, id.referenced_declaration),
                        loop_call_text(location_text(*ctx.contract, *ctx.node), *ctx.unit, v0.last_call->Some_0@),
                        res is Ok,
                    );
                    assert(printed_texts(o0) + Seq::<Seq<char>>::empty() =~= printed_texts(o0));
                }
                res?
            },
            None => {
                assert(printed_texts(o0) + Seq::<Seq<char>>::empty() + Seq::<Seq<char>>::empty() =~= printed_texts(o0));
            },
        }
        proof {
            assert(printed_texts(*out) + Seq::<Seq<char>>::empty() =~= printed_texts(*out));
        }
        match &mut self.check_effects_interactions {
            Some(v) => v.visit_identifier(ctx, id),
            None => {},
        }
        match &mut self.unused_state_variables {
            Some(v) => v.visit_identifier(ctx, id),
            None => {},
        }
        Ok(())
    }

    /// The analyses' visits of a binary operation.
    pub fn hooks_binary_operation(&mut self, ctx: &DefCtx, b: &BinaryOperation, out: &mut Output) -> (r: Result<(), AnalysisError>)
        requires
            old(self).wf(),
            old(out).wf(),
        ensures
            *final(self) == *old(self),
            final(self).wf(),
            final(out).wf(),
            old(out).extends(*final(out)),
            only_under(*old(out), *final(out), unit_path(*ctx.unit)),
            ({
                let src = b.info.src@;
                let d = old(self).divide_before_multiply is Some && spec_divide_before_multiply(*b);
                let rc = old(self).redundant_comparisons is Some && definition_id(*ctx.node) is Some
                    && is_redundant_comparison(*b);
                let az = old(self).address_zero is Some && spec_compares_address_zero(*b);
                let path = unit_path(*ctx.unit);
                &&& (d || rc || az) ==> (r is Ok <==> spec_source_line(*ctx.unit, src) is Ok)
                &&& !(d || rc || az) ==> r is Ok
                &&& r is Err ==> *final(out) == *old(out)
                &&& r is Ok ==> final(out).report.entries_of(path) == old(out).report.entries_of(path) + only_if(
                    d,
                    seq![
                        (
                            Some(spec_source_line(*ctx.unit, src)->Ok_0 as usize),
                            location_text(*ctx.contract, *ctx.node) + " performs a multiplication on the result of a division"@,
                        ),
                    ],
                )
                &&& r is Ok ==> printed_texts(*final(out)) == printed_texts(*old(out)) + only_if(
                    rc,
                    seq![
                        line_text(
                            *ctx.unit,
                            src,
                            location_text(*ctx.contract, *ctx.node) + " contains a redundant comparison: `"@
                                + spec_node_text(*ctx.unit, src) + "`"@,
                        ),
                    ],
                ) + only_if(
                    az,
                    seq![
                        line_text(
                            *ctx.unit,
                            src,
                            location_text(*ctx.contract, *ctx.node) + " contains `"@ + spec_node_text(*ctx.unit, src)
                                + "` usage, which can be optimized with assembly: `assembly { if iszero(addr) { ... } }`"@,
                        ),
                    ],
                )
            }),
    {
        proof { Output::lemma_extends_refl(*out); }
        let ghost o0 = *out;
        match &mut self.divide_before_multiply {
            Some(v) => v.visit_binary_operation(ctx, b, out)?,
            None => {},
        }
        let ghost o1 = *out;
        proof {
            assert(printed_texts(o1) =~= printed_texts(o0));
        }
        match &mut self.redundant_comparisons {
            Some(v) => {
                let res = v.visit_binary_operation(ctx, b, out);
                proof {
                    if res is Ok && definition_id(*ctx.node) is Some && is_redundant_comparison(*b) {
                        assert(printed_texts(*out) =~= printed_texts(o1).push(out.printed@.last()@));
                    } else {
                        assert(printed_texts(*out) =~= printed_texts(o1));
                    }
                }
                res?
            },
            None => {},
        }
        let ghost o2 = *out;
        match &mut self.address_zero {
            Some(v) => {
                let res = v.visit_binary_operation(ctx, b, out);
                proof {
                    if res is Ok && spec_compares_address_zero(*b) {
                        assert(printed_texts(*out) =~= printed_texts(o2).push(out.printed@.last()@));
                    } else {
                        assert(printed_texts(*out) =~= printed_texts(o2));
                    }
                }
                res?
            },
            None => {},
        }
        proof {
            let path = unit_path(*ctx.unit);
            assert(o0.report.entries_of(path) + Seq::<crate::report::EntryView>::empty() =~= o0.report.entries_of(path));
            assert(printed_texts(o0) + Seq::<Seq<char>>::empty() =~= printed_texts(o0));
            assert(printed_texts(o0) + Seq::<Seq<char>>::empty() + Seq::<Seq<char>>::empty() =~= printed_texts(o0));
        }
        Ok(())
    }

    /// The analyses' visits of an assignment.
    pub fn hooks_assignment(&mut self, ctx: &DefCtx, a: &Assignment, out: &mut Output) -> (r: Result<(), AnalysisError>)
        requires
            old(self).wf(),
            old(out).wf(),
        ensures
            *final(self) == (AstVisitorData { check_effects_interactions: final(self).check_effects_interactions, state_variable_mutability: final(self).state_variable_mutability, missing_return: final(self).missing_return, ..*old(self) }),
            final(self).wf(),
            final(out).wf(),
            old(out).extends(*final(out)),
            only_under(*old(out), *final(out), unit_path(*ctx.unit)),
            r is Ok ==> printed_texts(*final(out)) == printed_texts(*old(out)) + effects_assignment_lines(
                old(self).check_effects_interactions,
                *ctx,
                *a,
            ),
            match (old(self).check_effects_interactions, final(self).check_effects_interactions) {
                (Some(v), Some(w)) => CheckEffectsInteractionsVisitor::noted_write(v, w, *ctx, *a),
                (None, None) => true,
                _ => false,
            },
            match (old(self).state_variable_mutability, final(self).state_variable_mutability) {
                (Some(v), Some(w)) => StateVariableMutabilityVisitor::marked_assignment(v, w, *ctx, *a),
                (None, None) => true,
                _ => false,
            },
            match (old(self).missing_return, final(self).missing_return) {
                (Some(v), Some(w)) => MissingReturnVisitor::recorded_assignment(v, w, *ctx, *a),
                (None, None) => true,
                _ => false,
            },
            ({
                let src = a.info.src@;
                let ra = old(self).redundant_assignments is Some && repeat_count(*a) > 0;
                let aa = if_selected(
                    old(self).array_assignment is Some,
                    found_line(spec_inefficient_array_assignment(*a), src, array_assignment_text(*ctx, *a)),
                );
                let path = unit_path(*ctx.unit);
                &&& r is Ok <==> ((ra ==> spec_source_line(*ctx.unit, src) is Ok) && line_ok(*ctx.unit, aa))
                &&& r is Ok ==> final(out).report.entries_of(path) == old(out).report.entries_of(path) + only_if(
                    ra,
                    Seq::new(
                        repeat_count(*a),
                        |i: int| (
                            Some(spec_source_line(*ctx.unit, src)->Ok_0 as usize),
                            location_text(*ctx.contract, *ctx.node) + " contains a redundant assignment: `"@
                                + spec_node_text(*ctx.unit, src) + "`"@,
                        ),
                    ),
                ) + opt_entry(*ctx.unit, aa)
            }),
    {
        proof { Output::lemma_extends_refl(*out); }
        let ghost path = unit_path(*ctx.unit);
        let ghost o0 = *out;
        match &mut self.check_effects_interactions {
            Some(v) => v.visit_assignment(ctx, a, out),
            None => {},
        }
        match &mut self.state_variable_mutability {
            Some(v) => v.visit_assignment(ctx, a),
            None => {},
        }
        match &mut self.missing_return {
            Some(v) => v.visit_assignment(ctx, a),
            None => {},
        }
        let ghost o1 = *out;
        assert(o1.report == o0.report);
        assert(printed_texts(o1) =~= printed_texts(o0) + effects_assignment_lines(old(self).check_effects_interactions, *ctx, *a));
        match &mut self.redundant_assignments {
            Some(v) => v.visit_assignment(ctx, a, out)?,
            None => {},
        }
        let ghost o2 = *out;
        proof {
            let e = only_if(
                old(self).redundant_assignments is Some && repeat_count(*a) > 0,
                Seq::new(
                    repeat_count(*a),
                    |i: int| (
                        Some(spec_source_line(*ctx.unit, a.info.src@)->Ok_0 as usize),
                        location_text(*ctx.contract, *ctx.node) + " contains a redundant assignment: `"@
                            + spec_node_text(*ctx.unit, a.info.src@) + "`"@,
                    ),
                ),
            );
            if !(old(self).redundant_assignments is Some && repeat_count(*a) > 0) {
                assert(o2.report.entries_of(path) =~= o0.report.entries_of(path) + e);
            }
            assert(o2.report.entries_of(path) =~= o0.report.entries_of(path) + e);
        }
        match &mut self.array_assignment {
            Some(v) => {
                let res = v.visit_assignment(ctx, a, out);
                proof {
                    lemma_reported_step(
                        o2,
                        *out,
                        *ctx.unit,
                        a.info.src@,
                        spec_inefficient_array_assignment(*a),
                        array_assignment_text(*ctx, *a),
                        res is Ok,
                    );
                }
                res?
            },
            None => {
                assert(out.report.entries_of(path) =~= o2.report.entries_of(path) + Seq::<crate::report::EntryView>::empty());
            },
        }
        Ok(())
    }

    /// The analyses' visits of a function call.
    pub fn hooks_function_call(&mut self, ctx: &DefCtx, blocks: &Vec<NodeId>, call: &FunctionCall, out: &mut Output) -> (r: Result<(), AnalysisError>)
        requires
            old(self).wf(),
            old(out).wf(),
        ensures
            *final(self) == (AstVisitorData { external_calls_in_loop: final(self).external_calls_in_loop, unchecked_erc20_transfer: final(self).unchecked_erc20_transfer, state_variable_mutability: final(self).state_variable_mutability, assert_usage: final(self).assert_usage, ..*old(self) }),
            final(self).wf(),
            final(out).wf(),
            old(out).extends(*final(out)),
            only_under(*old(out), *final(out), unit_path(*ctx.unit)),
            r is Ok <==> call_first_ok(*old(self), *ctx, *call) && call_rest_ok(*old(self), *ctx, *call),
            r is Ok ==> final(out).report.entries_of(unit_path(*ctx.unit)) == old(out).report.entries_of(unit_path(*ctx.unit))
                + call_first_entries(*old(self), *ctx, *call) + call_rest_entries(*old(self), *ctx, *call),
            r is Ok ==> printed_texts(*final(out)) == printed_texts(*old(out)) + call_first_lines(*old(self), *ctx, *call)
                + call_rest_lines(*old(self), *ctx, *call),
            r is Ok ==> call_first_state(*old(self), *final(self), *ctx, blocks@, *call) && call_rest_state(
                *old(self),
                *final(self),
                *ctx,
                *call,
            ),
    {
        let ghost d0 = *self;
        self.hooks_function_call_first(ctx, blocks, call, out)?;
        let ghost d1 = *self;
        let r = self.hooks_function_call_rest(ctx, blocks, call, out);
        proof {
            assert(call_rest_ok(d1, *ctx, *call) == call_rest_ok(d0, *ctx, *call));
            assert(call_rest_lines(d1, *ctx, *call) == call_rest_lines(d0, *ctx, *call));
            assert(call_rest_entries(d1, *ctx, *call) == call_rest_entries(d0, *ctx, *call));
            if r is Ok {
                assert(call_rest_state(d0, *self, *ctx, *call));
                assert(call_first_state(d0, *self, *ctx, blocks@, *call));
            }
        }
        r
    }

    /// The first half of the analyses' visits of a function call.
    #[verifier::rlimit(40)]
    fn hooks_function_call_first(&mut self, ctx: &DefCtx, blocks: &Vec<NodeId>, call: &FunctionCall, out: &mut Output) -> (r: Result<(), AnalysisError>)
        requires
            old(self).wf(),
            old(out).wf(),
        ensures
            *final(self) == (AstVisitorData { external_calls_in_loop: final(self).external_calls_in_loop, unchecked_erc20_transfer: final(self).unchecked_erc20_transfer, ..*old(self) }),
            final(self).wf(),
            final(out).wf(),
            old(out).extends(*final(out)),
            only_under(*old(out), *final(out), unit_path(*ctx.unit)),
            r is Ok <==> call_first_ok(*old(self), *ctx, *call),
            r is Ok ==> final(out).report.entries_of(unit_path(*ctx.unit)) == old(out).report.entries_of(unit_path(*ctx.unit))
                + call_first_entries(*old(self), *ctx, *call),
            r is Ok ==> printed_texts(*final(out)) == printed_texts(*old(out)) + call_first_lines(*old(self), *ctx, *call),
            r is Ok ==> call_first_state(*old(self), *final(self), *ctx, blocks@, *call),
            final(self).assignment_comparisons == old(self).assignment_comparisons,
            final(self).state_variable_mutability == old(self).state_variable_mutability,
            final(self).unchecked_casting == old(self).unchecked_casting,
            final(self).assert_usage == old(self).assert_usage,
            final(self).manipulatable_balance_usage == old(self).manipulatable_balance_usage,
            final(self).abi_encoding == old(self).abi_encoding,
    {
        proof { Output::lemma_extends_refl(*out); }
        let ghost d0 = *self;
        let ghost path = unit_path(*ctx.unit);
        let ghost o0 = *out;
        let ghost q1 = if_selected(self.require_without_message is Some, require_finding(*ctx, *call));
        let ghost q2 = if_selected(self.secure_ether_transfer is Some, ether_finding(*ctx, *call));
        let ghost q4 = if_selected(self.unpaid_payable_functions is Some, payable_finding(*ctx, *call));
        match &mut self.require_without_message {
            Some(v) => {
                let res = v.visit_function_call(ctx, call, out);
                proof {
                    lemma_reported_step(
                        o0,
                        *out,
                        *ctx.unit,
                        call.info.src@,
                        spec_require_without_message(*call),
                        location_text(*ctx.contract, *ctx.node) + " contains a requirement without a message: `"@
                            + spec_node_text(*ctx.unit, call.info.src@) + "`"@,
                        res is Ok,
                    );
                }
                res?
            },
            None => {
                assert(o0.report.entries_of(path) + opt_entry(*ctx.unit, q1) =~= o0.report.entries_of(path));
            },
        }
        let ghost o1 = *out;
        match &mut self.external_calls_in_loop {
            Some(v) => v.visit_function_call(call),
            None => {},
        }
        match &mut self.secure_ether_transfer {
            Some(v) => {
                let res = v.visit_function_call(ctx, call, out);
                proof {
                    lemma_printed_step(
                        o1,
                        *out,
                        *ctx.unit,
                        call.info.src@,
                        spec_raw_transfer(*call.expression),
                        location_text(*ctx.contract, *ctx.node) + " ignores the Secure-Ether-Transfer pattern: `"@
                            + spec_node_text(*ctx.unit, call.info.src@) + "`"@,
                        res is Ok,
                    );
                }
                res?
            },
            None => {
                assert(printed_texts(o1) + opt_line(*ctx.unit, q2) =~= printed_texts(o1));
            },
        }
        let ghost o2 = *out;
        match &mut self.safe_erc20_functions {
            Some(v) => {
                let res = v.visit_function_call(ctx, call, out);
                proof {
                    if !safe_erc20_listed(true, *ctx, *call) {
                        assert(o2.report.entries_of(path) + safe_erc20_entries(true, *ctx, *call) =~= o2.report.entries_of(path));
                    }
                }
                res?
            },
            None => {
                assert(o2.report.entries_of(path) + safe_erc20_entries(false, *ctx, *call) =~= o2.report.entries_of(path));
            },
        }
        let ghost o3 = *out;
        match &mut self.unchecked_erc20_transfer {
            Some(v) => v.visit_function_call(ctx, blocks, call),
            None => {},
        }
        match &mut self.unpaid_payable_functions {
            Some(v) => {
                let res = v.visit_function_call(ctx, call, out);
                proof {
                    lemma_reported_step(
                        o3,
                        *out,
                        *ctx.unit,
                        call.info.src@,
                        spec_calls_payable(ctx.units@, *call),
                        location_text(*ctx.contract, *ctx.node) + " calls a payable function without paying: `"@
                            + spec_node_text(*ctx.unit, call.info.src@) + "`"@,
                        res is Ok,
                    );
                }
                res?
            },
            None => {
                assert(o3.report.entries_of(path) + opt_entry(*ctx.unit, q4) =~= o3.report.entries_of(path));
            },
        }
        proof {
            assert(o0.report.entries_of(path) + call_first_entries(d0, *ctx, *call) =~= out.report.entries_of(path));
        }
        Ok(())
    }

    /// The second half of the analyses' visits of a function call.
    #[verifier::rlimit(40)]
    fn hooks_function_call_rest(&mut self, ctx: &DefCtx, blocks: &Vec<NodeId>, call: &FunctionCall, out: &mut Output) -> (r: Result<(), AnalysisError>)
        requires
            old(self).wf(),
            old(out).wf(),
        ensures
            *final(self) == (AstVisitorData { state_variable_mutability: final(self).state_variable_mutability, assert_usage: final(self).assert_usage, ..*old(self) }),
            final(self).wf(),
            final(out).wf(),
            old(out).extends(*final(out)),
            only_under(*old(out), *final(out), unit_path(*ctx.unit)),
            r is Ok <==> call_rest_ok(*old(self), *ctx, *call),
            r is Ok ==> final(out).report.entries_of(unit_path(*ctx.unit)) == old(out).report.entries_of(unit_path(*ctx.unit))
                + call_rest_entries(*old(self), *ctx, *call),
            r is Ok ==> printed_texts(*final(out)) == printed_texts(*old(out)) + call_rest_lines(*old(self), *ctx, *call),
            r is Ok ==> call_rest_state(*old(self), *final(self), *ctx, *call),
            final(self).external_calls_in_loop == old(self).external_calls_in_loop,
            final(self).unchecked_erc20_transfer == old(self).unchecked_erc20_transfer,
    {
        proof { Output::lemma_extends_refl(*out); }
        let ghost d0 = *self;
        let ghost path = unit_path(*ctx.unit);
        let ghost o0 = *out;
        let ghost q1 = if_selected(self.assignment_comparisons is Some, comparison_call_finding(*ctx, *call));
        let ghost q2 = if_selected(self.unchecked_casting is Some, cast_finding(*ctx, *call));
        let ghost q3 = assert_finding(self.assert_usage, *ctx, *call);
        let ghost q4 = if_selected(self.manipulatable_balance_usage is Some, balance_call_finding(*ctx, *call));
        let ghost q5 = encoding_finding(self.abi_encoding, *ctx, *call);
        match &mut self.assignment_comparisons {
            Some(v) => {
                let res = v.visit_function_call(ctx, call, out);
                proof {
                    lemma_printed_step(
                        o0,
                        *out,
                        *ctx.unit,
                        call.info.src@,
                        definition_id(*ctx.node) is Some && checking_call_name(*call) is Some && call.arguments@.len() > 0
                            && contains_op(call.arguments@[0], "="@),
                        assignment_text(
                            location_text(*ctx.contract, *ctx.node),
                            "a call to `"@ + checking_call_name(*call)->Some_0 + "`"@,
                            spec_node_text(*ctx.unit, call.info.src@),
                        ),
                        res is Ok,
                    );
                }
                res?
            },
            None => {
                assert(printed_texts(o0) + opt_line(*ctx.unit, q1) =~= printed_texts(o0));
            },
        }
        match &mut self.state_variable_mutability {
            Some(v) => v.visit_function_call(ctx, call),
            None => {},
        }
        let ghost o1 = *out;
        match &mut self.unchecked_casting {
            Some(v) => {
                let res = v.visit_function_call(ctx, call, out);
                proof {
                    lemma_printed_step(
                        o1,
                        *out,
                        *ctx.unit,
                        call.info.src@,
                        definition_id(*ctx.node) is Some && is_redundant_cast(*call),
                        location_text(*ctx.contract, *ctx.node) + " contains a redundant cast: `"@ + spec_node_text(
                            *ctx.unit,
                            call.info.src@,
                        ) + "`"@,
                        res is Ok,
                    );
                }
                res?
            },
            None => {
                assert(printed_texts(o1) + opt_line(*ctx.unit, q2) =~= printed_texts(o1));
            },
        }
        let ghost o2 = *out;
        match &mut self.assert_usage {
            Some(v) => {
                let ghost v0 = *v;
                let res = v.visit_function_call(ctx, call, out);
                proof {
                    lemma_reported_step(
                        o2,
                        *out,
                        *ctx.unit,
                        call.info.src@,
                        assert_fresh(v0, *ctx, *call),
                        location_text(*ctx.contract, *ctx.node) + " contains assert usage: `"@ + spec_node_text(
                            *ctx.unit,
                            call.info.src@,
                        ) + "`"@,
                        res is Ok,
                    );
                }
                res?
            },
            None => {
                assert(o2.report.entries_of(path) + opt_entry(*ctx.unit, q3) =~= o2.report.entries_of(path));
            },
        }
        let ghost o3 = *out;
        match &mut self.manipulatable_balance_usage {
            Some(v) => {
                let res = v.visit_function_call(ctx, call, out);
                proof {
                    lemma_reported_step(
                        o3,
                        *out,
                        *ctx.unit,
                        call.info.src@,
                        spec_own_token_balance(*call),
                        location_text(*ctx.contract, *ctx.node) + " contains manipulatable balance usage: `"@
                            + spec_node_text(*ctx.unit, call.info.src@) + "`"@,
                        res is Ok,
                    );
                }
                res?
            },
            None => {
                assert(o3.report.entries_of(path) + opt_entry(*ctx.unit, q4) =~= o3.report.entries_of(path));
            },
        }
        let ghost o4 = *out;
        match &mut self.abi_encoding {
            Some(v) => {
                let ghost v0 = *v;
                let res = v.visit_function_call(ctx, call, out);
                proof {
                    lemma_printed_step(
                        o4,
                        *out,
                        *ctx.unit,
                        call.info.src@,
                        is_encode_packed(*call) && call.arguments@.len() >= 2 && v0.any_dynamic(call.arguments@),
                        location_text(*ctx.contract, *ctx.node) + " contains the potential for hash collisions: `"@
                            + spec_node_text(*ctx.unit, call.info.src@) + "`"@,
                        res is Ok,
                    );
                }
                res?
            },
            None => {
                assert(printed_texts(o4) + opt_line(*ctx.unit, q5) =~= printed_texts(o4));
            },
        }
        proof {
            assert(o0.report.entries_of(path) + call_rest_entries(d0, *ctx, *call) =~= out.report.entries_of(path));
            assert(printed_texts(o0) + call_rest_lines(d0, *ctx, *call) =~= printed_texts(*out));
        }
        Ok(())
    }

    /// The analyses' visits of a member access.
    pub fn hooks_member_access(&mut self, ctx: &DefCtx, m: &MemberAccess, out: &mut Output) -> (r: Result<(), AnalysisError>)
        requires
            old(self).wf(),
            old(out).wf(),
        ensures
            *final(self) == (AstVisitorData { check_effects_interactions: final(self).check_effects_interactions, unused_state_variables: final(self).unused_state_variables, ..*old(self) }),
            final(self).wf(),
            final(out).wf(),
            old(out).extends(*final(out)),
            only_under(*old(out), *final(out), unit_path(*ctx.unit)),
            final(self).external_calls_in_loop == old(self).external_calls_in_loop,
            ({
                let src = m.info.src@;
                let p = loop_finding(old(self).external_calls_in_loop, *ctx, m.referenced_declaration, src);
                let e1 = if_selected(
                    old(self).manipulatable_balance_usage is Some,
                    found_line(spec_own_balance(*m), src, location_text(*ctx.contract, *ctx.node) + " contains manipulatable balance usage: `"@ + spec_node_text(*ctx.unit, src) + "`"@),
                );
                let e2 = if_selected(
                    old(self).address_balance is Some,
                    found_line(
                        spec_balance_of(*m) is Some,
                        src,
                        location_text(*ctx.contract, *ctx.node) + " contains `"@ + spec_node_text(*ctx.unit, src)
                            + "` usage, which can be optimized with assembly: `"@ + (if spec_balance_of(*m) == Some(true) {
                            "assembly { bal := balance(addr); }"@
                        } else {
                            "assembly { bal := selfbalance(); }"@
                        }) + "`"@,
                    ),
                );
                let path = unit_path(*ctx.unit);
                &&& r is Ok <==> (line_ok(*ctx.unit, p) && line_ok(*ctx.unit, e1) && line_ok(*ctx.unit, e2))
                &&& r is Ok ==> printed_texts(*final(out)) == printed_texts(*old(out)) + opt_line(*ctx.unit, p)
                &&& r is Ok ==> final(out).report.entries_of(path) == old(out).report.entries_of(path) + opt_entry(*ctx.unit, e1)
                    + opt_entry(*ctx.unit, e2)
                &&& r is Ok ==> effects_noted(
                    old(self).check_effects_interactions,
                    final(self).check_effects_interactions,
                    *ctx,
                    m.referenced_declaration,
                )
                &&& r is Ok ==> unused_marked(
                    old(self).unused_state_variables,
                    final(self).unused_state_variables,
                    *ctx,
                    m.referenced_declaration,
                )
            }),
    {
        proof { Output::lemma_extends_refl(*out); }
        let ghost o0 = *out;
        let ghost path = unit_path(*ctx.unit);
        match &mut self.external_calls_in_loop {
            Some(v) => {
                let ghost v0 = *v;
                let res = v.visit_member_access(ctx, m, out);
                proof {
                    if m.referenced_declaration is Some {
                        lemma_printed_step(
                            o0,
                            *out,
                            *ctx.unit,
                            m.info.src@,
                            v0.calls_external(*ctx, m.referenced_declaration->Some_0),
                            loop_call_text(location_text(*ctx.contract, *ctx.node), *ctx.unit, v0.last_call->Some_0@),
                            res is Ok,
                        );
                    } else {
                        assert(printed_texts(*out) =~= printed_texts(o0) + Seq::<Seq<char>>::empty());
                    }
                }
                res?
            },
            None => {
                assert(printed_texts(*out) =~= printed_texts(o0) + Seq::<Seq<char>>::empty());
            },
        }
        match &mut self.check_effects_interactions {
            Some(v) => v.visit_member_access(ctx, m),
            None => {},
        }
        match &mut self.unused_state_variables {
            Some(v) => v.visit_member_access(ctx, m),
            None => {},
        }
        let ghost o1 = *out;
        match &mut self.manipulatable_balance_usage {
            Some(v) => {
                let res = v.visit_member_access(ctx, m, out);
                proof {
                    lemma_reported_step(
                        o1,
                        *out,
                        *ctx.unit,
                        m.info.src@,
                        spec_own_balance(*m),
                        location_text(*ctx.contract, *ctx.node) + " contains manipulatable balance usage: `"@ + spec_node_text(*ctx.unit, m.info.src@) + "`"@,
                        res is Ok,
                    );
                }
                res?
            },
            None => {
                assert(out.report.entries_of(path) =~= o1.report.entries_of(path) + Seq::<crate::report::EntryView>::empty());
            },
        }
        let ghost o2 = *out;
        match &mut self.address_balance {
            Some(v) => {
                let res = v.visit_member_access(ctx, m, out);
                proof {
                    lemma_reported_step(
                        o2,
                        *out,
                        *ctx.unit,
                        m.info.src@,
                        spec_balance_of(*m) is Some,
                        location_text(*ctx.contract, *ctx.node) + " contains `"@ + spec_node_text(*ctx.unit, m.info.src@)
                            + "` usage, which can be optimized with assembly: `"@ + (if spec_balance_of(*m) == Some(true) {
                            "assembly { bal := balance(addr); }"@
                        } else {
                            "assembly { bal := selfbalance(); }"@
                        }) + "`"@,
                        res is Ok,
                    );
                }
                res?
            },
            None => {
                assert(out.report.entries_of(path) =~= o2.report.entries_of(path) + Seq::<crate::report::EntryView>::empty());
            },
        }
        proof {
            assert(out.report.entries_of(path) =~= o0.report.entries_of(path) + (o1.report.entries_of(path).subrange(
                o0.report.entries_of(path).len() as int, o1.report.entries_of(path).len() as int)) + (out.report.entries_of(path).subrange(
                o1.report.entries_of(path).len() as int, out.report.entries_of(path).len() as int)));
        }
        Ok(())
    }

    /// The analyses named in `names`, each fresh (all of them where `names`
    /// is empty), in the order they are listed.
    pub fn new(names: &Vec<String>) -> (r: AstVisitorData)
        ensures
            r.wf(),
            r.no_spdx_identifier is Some <==> selected(names@.map_values(|s: String| s@), "no_spdx_identifier"@),
            r.floating_solidity_version is Some <==> selected(names@.map_values(|s: String| s@), "floating_solidity_version"@),
            r.redundant_imports is Some <==> selected(names@.map_values(|s: String| s@), "redundant_imports"@),
            r.abstract_contracts is Some <==> selected(names@.map_values(|s: String| s@), "abstract_contracts"@),
            r.large_literals is Some <==> selected(names@.map_values(|s: String| s@), "large_literals"@),
            r.tight_variable_packing is Some <==> selected(names@.map_values(|s: String| s@), "tight_variable_packing"@),
            r.redundant_getter_function is Some <==> selected(names@.map_values(|s: String| s@), "redundant_getter_function"@),
            r.require_without_message is Some <==> selected(names@.map_values(|s: String| s@), "require_without_message"@),
            r.state_variable_shadowing is Some <==> selected(names@.map_values(|s: String| s@), "state_variable_shadowing"@),
            r.explicit_variable_return is Some <==> selected(names@.map_values(|s: String| s@), "explicit_variable_return"@),
            r.unused_return is Some <==> selected(names@.map_values(|s: String| s@), "unused_return"@),
            r.storage_array_loop is Some <==> selected(names@.map_values(|s: String| s@), "storage_array_loop"@),
            r.external_calls_in_loop is Some <==> selected(names@.map_values(|s: String| s@), "external_calls_in_loop"@),
            r.check_effects_interactions is Some <==> selected(names@.map_values(|s: String| s@), "check_effects_interactions"@),
            r.secure_ether_transfer is Some <==> selected(names@.map_values(|s: String| s@), "secure_ether_transfer"@),
            r.safe_erc20_functions is Some <==> selected(names@.map_values(|s: String| s@), "safe_erc20_functions"@),
            r.unchecked_erc20_transfer is Some <==> selected(names@.map_values(|s: String| s@), "unchecked_erc20_transfer"@),
            r.unpaid_payable_functions is Some <==> selected(names@.map_values(|s: String| s@), "unpaid_payable_functions"@),
            r.divide_before_multiply is Some <==> selected(names@.map_values(|s: String| s@), "divide_before_multiply"@),
            r.comparison_utilization is Some <==> selected(names@.map_values(|s: String| s@), "comparison_utilization"@),
            r.assignment_comparisons is Some <==> selected(names@.map_values(|s: String| s@), "assignment_comparisons"@),
            r.state_variable_mutability is Some <==> selected(names@.map_values(|s: String| s@), "state_variable_mutability"@),
            r.unused_state_variables is Some <==> selected(names@.map_values(|s: String| s@), "unused_state_variables"@),
            r.ineffectual_statements is Some <==> selected(names@.map_values(|s: String| s@), "ineffectual_statements"@),
            r.inline_assembly is Some <==> selected(names@.map_values(|s: String| s@), "inline_assembly"@),
            r.unchecked_casting is Some <==> selected(names@.map_values(|s: String| s@), "unchecked_casting"@),
            r.missing_return is Some <==> selected(names@.map_values(|s: String| s@), "missing_return"@),
            r.redundant_state_variable_access is Some <==> selected(names@.map_values(|s: String| s@), "redundant_state_variable_access"@),
            r.redundant_comparisons is Some <==> selected(names@.map_values(|s: String| s@), "redundant_comparisons"@),
            r.assert_usage is Some <==> selected(names@.map_values(|s: String| s@), "assert_usage"@),
            r.selfdestruct_usage is Some <==> selected(names@.map_values(|s: String| s@), "selfdestruct_usage"@),
            r.unrestricted_setter_functions is Some <==> selected(names@.map_values(|s: String| s@), "unrestricted_setter_functions"@),
            r.manipulatable_balance_usage is Some <==> selected(names@.map_values(|s: String| s@), "manipulatable_balance_usage"@),
            r.redundant_assignments is Some <==> selected(names@.map_values(|s: String| s@), "redundant_assignments"@),
            r.invalid_using_for_directives is Some <==> selected(names@.map_values(|s: String| s@), "invalid_using_for_directives"@),
            r.abi_encoding is Some <==> selected(names@.map_values(|s: String| s@), "abi_encoding"@),
            r.address_balance is Some <==> selected(names@.map_values(|s: String| s@), "address_balance"@),
            r.address_zero is Some <==> selected(names@.map_values(|s: String| s@), "address_zero"@),
            r.array_assignment is Some <==> selected(names@.map_values(|s: String| s@), "array_assignment"@),
    {
        let r = AstVisitorData {
            no_spdx_identifier: if is_selected(names, "no_spdx_identifier") { Some(NoSpdxIdentifierVisitor::new()) } else { None },
            floating_solidity_version: if is_selected(names, "floating_solidity_version") { Some(FloatingSolidityVersionVisitor::new()) } else { None },
            redundant_imports: if is_selected(names, "redundant_imports") { Some(RedundantImportsVisitor::new()) } else { None },
            abstract_contracts: if is_selected(names, "abstract_contracts") { Some(AbstractContractsVisitor::new()) } else { None },
            large_literals: if is_selected(names, "large_literals") { Some(LargeLiteralsVisitor::new()) } else { None },
            tight_variable_packing: if is_selected(names, "tight_variable_packing") { Some(TightVariablePackingVisitor::new()) } else { None },
            redundant_getter_function: if is_selected(names, "redundant_getter_function") { Some(RedundantGetterFunctionVisitor::new()) } else { None },
            require_without_message: if is_selected(names, "require_without_message") { Some(RequireWithoutMessageVisitor::new()) } else { None },
            state_variable_shadowing: if is_selected(names, "state_variable_shadowing") { Some(StateVariableShadowingVisitor::new()) } else { None },
            explicit_variable_return: if is_selected(names, "explicit_variable_return") { Some(ExplicitVariableReturnVisitor::new()) } else { None },
            unused_return: if is_selected(names, "unused_return") { Some(UnusedReturnVisitor::new()) } else { None },
            storage_array_loop: if is_selected(names, "storage_array_loop") { Some(StorageArrayLoopVisitor::new()) } else { None },
            external_calls_in_loop: if is_selected(names, "external_calls_in_loop") { Some(ExternalCallsInLoopVisitor::new()) } else { None },
            check_effects_interactions: if is_selected(names, "check_effects_interactions") { Some(CheckEffectsInteractionsVisitor::new()) } else { None },
            secure_ether_transfer: if is_selected(names, "secure_ether_transfer") { Some(SecureEtherTransferVisitor::new()) } else { None },
            safe_erc20_functions: if is_selected(names, "safe_erc20_functions") { Some(SafeERC20FunctionsVisitor::new()) } else { None },
            unchecked_erc20_transfer: if is_selected(names, "unchecked_erc20_transfer") { Some(UncheckedERC20TransferVisitor::new()) } else { None },
            unpaid_payable_functions: if is_selected(names, "unpaid_payable_functions") { Some(UnpaidPayableFunctionsVisitor::new()) } else { None },
            divide_before_multiply: if is_selected(names, "divide_before_multiply") { Some(DivideBeforeMultiplyVisitor::new()) } else { None },
            comparison_utilization: if is_selected(names, "comparison_utilization") { Some(ComparisonUtilizationVisitor::new()) } else { None },
            assignment_comparisons: if is_selected(names, "assignment_comparisons") { Some(AssignmentComparisonsVisitor::new()) } else { None },
            state_variable_mutability: if is_selected(names, "state_variable_mutability") { Some(StateVariableMutabilityVisitor::new()) } else { None },
            unused_state_variables: if is_selected(names, "unused_state_variables") { Some(UnusedStateVariablesVisitor::new()) } else { None },
            ineffectual_statements: if is_selected(names, "ineffectual_statements") { Some(IneffectualStatementsVisitor::new()) } else { None },
            inline_assembly: if is_selected(names, "inline_assembly") { Some(InlineAssemblyVisitor::new()) } else { None },
            unchecked_casting: if is_selected(names, "unchecked_casting") { Some(UncheckedCastingVisitor::new()) } else { None },
            missing_return: if is_selected(names, "missing_return") { Some(MissingReturnVisitor::new()) } else { None },
            redundant_state_variable_access: if is_selected(names, "redundant_state_variable_access") { Some(RedundantStateVariableAccessVisitor::new()) } else { None },
            redundant_comparisons: if is_selected(names, "redundant_comparisons") { Some(RedundantComparisonsVisitor::new()) } else { None },
            assert_usage: if is_selected(names, "assert_usage") { Some(AssertUsageVisitor::new()) } else { None },
            selfdestruct_usage: if is_selected(names, "selfdestruct_usage") { Some(SelfdestructUsageVisitor::new()) } else { None },
            unrestricted_setter_functions: if is_selected(names, "unrestricted_setter_functions") { Some(UnrestrictedSetterFunctionsVisitor::new()) } else { None },
            manipulatable_balance_usage: if is_selected(names, "manipulatable_balance_usage") { Some(ManipulatableBalanceUsageVisitor::new()) } else { None },
            redundant_assignments: if is_selected(names, "redundant_assignments") { Some(RedundantAssignmentsVisitor::new()) } else { None },
            invalid_using_for_directives: if is_selected(names, "invalid_using_for_directives") { Some(InvalidUsingForDirectivesVisitor::new()) } else { None },
            abi_encoding: if is_selected(names, "abi_encoding") { Some(AbiEncodingVisitor::new()) } else { None },
            address_balance: if is_selected(names, "address_balance") { Some(AddressBalanceVisitor::new()) } else { None },
            address_zero: if is_selected(names, "address_zero") { Some(AddressZeroVisitor::new()) } else { None },
            array_assignment: if is_selected(names, "array_assignment") { Some(ArrayAssignmentVisitor::new()) } else { None },
        };
        r
    }

    /// Walks one source unit: the unit itself, then its nodes in order.
    pub fn visit_source_unit(&mut self, units: &Vec<SourceUnit>, unit: &SourceUnit, out: &mut Output) -> (r: Result<(), AnalysisError>)
        requires
            old(self).wf(),
            old(out).wf(),
        ensures
            final(self).wf(),
            final(out).wf(),
            old(out).extends(*final(out)),
            only_under(*old(out), *final(out), unit_path(*unit)),
            walk_unit(*old(self), *old(out), units, unit, *final(self), *final(out), r is Ok),
    {
        let ctx = UnitCtx { units, unit };
        proof { Output::lemma_extends_refl(*out); }
        let ghost d0 = *self;
        match &mut self.no_spdx_identifier {
            Some(v) => {
                v.visit_source_unit(&ctx, out);
                proof {
                    if unit.license is None {
                        assert(old(out).report.entries_of(unit_path(*unit)) + spdx_entries(true, *unit) =~= out.report.entries_of(
                            unit_path(*unit),
                        ));
                    } else {
                        assert(old(out).report.entries_of(unit_path(*unit)) + spdx_entries(true, *unit) =~= out.report.entries_of(
                            unit_path(*unit),
                        ));
                    }
                }
            },
            None => {},
        }
        let ghost o1 = *out;
        proof {
            assert(*self == d0);
            assert(ctx == unit_ctx(units, unit));
            lemma_point(d0, o1, true);
            Output::lemma_extends_refl(*out);
        }
        let n = unit.nodes.len();
        let mut i: usize = 0;
        while i < n
            invariant
                n == unit.nodes@.len(),
                i <= n,
                self.wf(),
                out.wf(),
                old(out).extends(*out),
                only_under(*old(out), *out, unit_path(*unit)),
                ctx == unit_ctx(units, unit),
                d0 == *old(self),
                walk_point(d0, o1, true),
                spdx_visited(d0, *old(out), o1, *unit),
                walk_unit_nodes(d0, o1, ctx, i as nat, *self, *out, true),
            decreases n - i,
        {
            let ghost dm = *self;
            let ghost om = *out;
            let r = self.visit_unit_node(&ctx, &unit.nodes[i], out);
            proof {
                lemma_point(*self, *out, r is Ok);
                lemma_point(dm, om, true);
                assert(walk_unit_nodes(d0, o1, ctx, (i + 1) as nat, *self, *out, r is Ok));
            }
            if r.is_err() {
                proof { lemma_walk_unit_nodes_stop(d0, o1, ctx, (i + 1) as nat, n as nat, *self, *out); }
                return r;
            }
            i = i + 1;
        }
        Ok(())
    }

    /// Walks one node of a source unit.
    fn visit_unit_node(&mut self, ctx: &UnitCtx, n: &SourceUnitNode, out: &mut Output) -> (r: Result<(), AnalysisError>)
        requires
            old(self).wf(),
            old(out).wf(),
        ensures
            final(self).wf(),
            final(out).wf(),
            old(out).extends(*final(out)),
            only_under(*old(out), *final(out), unit_path(*ctx.unit)),
            walk_unit_node(*old(self), *old(out), *ctx, n, *final(self), *final(out), r is Ok),
    {
        proof { Output::lemma_extends_refl(*out); }
        match n {
            SourceUnitNode::PragmaDirective(p) => match &mut self.floating_solidity_version {
                Some(v) => v.visit_pragma_directive(ctx, p, out),
                None => Ok(()),
            },
            SourceUnitNode::ImportDirective(imp) => match &mut self.redundant_imports {
                Some(v) => v.visit_import_directive(ctx, imp, out),
                None => Ok(()),
            },
            SourceUnitNode::ContractDefinition(c) => self.visit_contract_definition(ctx.units, ctx.unit, c, out),
            SourceUnitNode::StructDefinition(st) => {
                match &mut self.tight_variable_packing {
                    Some(v) => v.visit_struct_definition(ctx.units, st, out),
                    None => {},
                }
                Ok(())
            },
            _ => Ok(()),
        }
    }

    /// Walks a contract: the contract, then each of its definitions in order;
    /// the body of a function or modifier is walked between the visit of the
    /// definition and the leaving of it.
    pub fn visit_contract_definition(
        &mut self,
        units: &Vec<SourceUnit>,
        unit: &SourceUnit,
        c: &ContractDefinition,
        out: &mut Output,
    ) -> (r: Result<(), AnalysisError>)
        requires
            old(self).wf(),
            old(out).wf(),
        ensures
            final(self).wf(),
            final(out).wf(),
            old(out).extends(*final(out)),
            only_under(*old(out), *final(out), unit_path(*unit)),
            walk_contract(*old(self), *old(out), unit_ctx(units, unit), c, *final(self), *final(out), r is Ok),
    {
        proof { Output::lemma_extends_refl(*out); }
        let uctx = UnitCtx { units, unit };
        self.hooks_enter_contract(units, c, out);
        let ghost d1 = *self;
        let ghost o1 = *out;
        proof {
            lemma_point(d1, o1, true);
            Output::lemma_extends_refl(*out);
        }
        let n = c.nodes.len();
        let mut i: usize = 0;
        while i < n
            invariant
                n == c.nodes@.len(),
                i <= n,
                self.wf(),
                out.wf(),
                old(out).extends(*out),
                only_under(*old(out), *out, unit_path(*unit)),
                uctx == unit_ctx(units, unit),
                walk_point(d1, o1, true),
                contract_entered_step(*old(self), *old(out), d1, o1, units, *c),
                walk_nodes(d1, o1, uctx, c, i as nat, *self, *out, true),
            decreases n - i,
        {
            let node = &c.nodes[i];
            let ctx = DefCtx { units, unit, contract: c, node };
            let ghost dm = *self;
            let ghost om = *out;
            let r = self.visit_contract_node(&ctx, out);
            proof {
                assert(ctx == node_ctx(uctx, c, &c.nodes@[i as int]));
                lemma_point(*self, *out, r is Ok);
                lemma_point(dm, om, true);
                assert(walk_nodes(d1, o1, uctx, c, (i + 1) as nat, *self, *out, r is Ok));
            }
            if r.is_err() {
                proof { lemma_walk_nodes_stop(d1, o1, uctx, c, (i + 1) as nat, n as nat, *self, *out); }
                return r;
            }
            i = i + 1;
        }
        let ghost d3 = *self;
        let ghost o3 = *out;
        proof { lemma_point(d3, o3, true); }
        self.hooks_leave_contract(&uctx, c, out)
    }

    /// Walks one definition of a contract.
    fn visit_contract_node(&mut self, ctx: &DefCtx, out: &mut Output) -> (r: Result<(), AnalysisError>)
        requires
            old(self).wf(),
            old(out).wf(),
        ensures
            final(self).wf(),
            final(out).wf(),
            old(out).extends(*final(out)),
            only_under(*old(out), *final(out), unit_path(*ctx.unit)),
            walk_node(*old(self), *old(out), *ctx, *final(self), *final(out), r is Ok),
    {
        proof { Output::lemma_extends_refl(*out); }
        match ctx.node {
            ContractDefinitionNode::UsingForDirective(u) => match &mut self.invalid_using_for_directives {
                Some(v) => v.visit_using_for_directive(ctx, u, out),
                None => Ok(()),
            },
            ContractDefinitionNode::StructDefinition(st) => {
                match &mut self.tight_variable_packing {
                    Some(v) => v.visit_struct_definition(ctx.units, st, out),
                    None => {},
                }
                Ok(())
            },
            ContractDefinitionNode::VariableDeclaration(vd) => {
                self.hooks_variable_declaration(ctx, vd, out);
                Ok(())
            },
            ContractDefinitionNode::FunctionDefinition(f) => {
                let r1 = self.hooks_enter_function(ctx, f, out);
                proof { lemma_point(*self, *out, r1 is Ok); }
                if r1.is_err() {
                    return r1;
                }
                let r2 = match &f.body {
                    Some(b) => {
                        let mut blocks: Vec<NodeId> = Vec::new();
                        assert(blocks@ =~= Seq::<NodeId>::empty());
                        self.visit_block(ctx, &mut blocks, b, out)
                    },
                    None => Ok(()),
                };
                proof { lemma_point(*self, *out, r2 is Ok); }
                if r2.is_err() {
                    return r2;
                }
                self.hooks_leave_function(ctx, f, out)
            },
            ContractDefinitionNode::ModifierDefinition(m) => {
                let mut blocks: Vec<NodeId> = Vec::new();
                assert(blocks@ =~= Seq::<NodeId>::empty());
                self.visit_block(ctx, &mut blocks, &m.body, out)
            },
            _ => Ok(()),
        }
    }

    /// Walks a block: its statements in order, with the block on top of the
    /// stack of enclosing blocks while they are walked.
    pub fn visit_block(&mut self, ctx: &DefCtx, blocks: &mut Vec<NodeId>, b: &Block, out: &mut Output) -> (r: Result<
        (),
        AnalysisError,
    >)
        requires
            old(self).wf(),
            old(out).wf(),
        ensures
            final(self).wf(),
            final(out).wf(),
            old(out).extends(*final(out)),
            only_under(*old(out), *final(out), unit_path(*ctx.unit)),
            final(blocks)@ == old(blocks)@,
            walk_block(*old(self), *old(out), *ctx, old(blocks)@, *b, *final(self), *final(out), r is Ok),
        decreases b,
    {
        proof { Output::lemma_extends_refl(*out); }
        let ghost d0 = *self;
        let ghost o0 = *out;
        let ghost inner = old(blocks)@.push(b.info.id);
        blocks.push(b.info.id);
        let n = b.statements.len();
        let mut i: usize = 0;
        assert(b.statements@.subrange(0, 0) =~= Seq::<Statement>::empty());
        while i < n
            invariant
                n == b.statements@.len(),
                i <= n,
                self.wf(),
                out.wf(),
                old(out).extends(*out),
                only_under(*old(out), *out, unit_path(*ctx.unit)),
                blocks@ == inner,
                inner == old(blocks)@.push(b.info.id),
                d0 == *old(self),
                o0 == *old(out),
                walk_stmts(d0, o0, *ctx, inner, b.statements@.subrange(0, i as int), *self, *out, true),
            decreases n - i,
        {
            proof {
                assert(decreases_to!(b.statements => b.statements@));
                assert(decreases_to!(b.statements@ => b.statements@[i as int]));
            }
            let ghost dm = *self;
            let ghost om = *out;
            let r = self.visit_statement(ctx, blocks, &b.statements[i], out);
            proof {
                lemma_point(*self, *out, r is Ok);
                lemma_point(dm, om, true);
                let p = b.statements@.subrange(0, i + 1);
                assert(p.subrange(0, p.len() - 1) =~= b.statements@.subrange(0, i as int));
                assert(p[p.len() - 1] == b.statements@[i as int]);
                assert(walk_stmts(d0, o0, *ctx, inner, b.statements@.subrange(0, i as int), dm, om, true));
                assert(walk_stmts(d0, o0, *ctx, inner, p, *self, *out, r is Ok));
            }
            if r.is_err() {
                blocks.pop();
                assert(blocks@ =~= old(blocks)@);
                proof { lemma_walk_stmts_stop(d0, o0, *ctx, inner, b.statements@, (i + 1) as int, *self, *out); }
                return r;
            }
            i = i + 1;
        }
        blocks.pop();
        assert(blocks@ =~= old(blocks)@);
        assert(b.statements@.subrange(0, n as int) =~= b.statements@);
        Ok(())
    }

    pub fn visit_block_or_statement(
        &mut self,
        ctx: &DefCtx,
        blocks: &mut Vec<NodeId>,
        bs: &BlockOrStatement,
        out: &mut Output,
    ) -> (r: Result<(), AnalysisError>)
        requires
            old(self).wf(),
            old(out).wf(),
        ensures
            final(self).wf(),
            final(out).wf(),
            old(out).extends(*final(out)),
            only_under(*old(out), *final(out), unit_path(*ctx.unit)),
            final(blocks)@ == old(blocks)@,
            walk_bos(*old(self), *old(out), *ctx, old(blocks)@, *bs, *final(self), *final(out), r is Ok),
        decreases bs,
    {
        match bs {
            BlockOrStatement::Block(b) => self.visit_block(ctx, blocks, b, out),
            BlockOrStatement::Statement(s) => self.visit_statement(ctx, blocks, s, out),
        }
    }

    /// Walks a statement: the statement itself, then what it holds.
    #[verifier::rlimit(100)]
    pub fn visit_statement(&mut self, ctx: &DefCtx, blocks: &mut Vec<NodeId>, s: &Statement, out: &mut Output) -> (r:
        Result<(), AnalysisError>)
        requires
            old(self).wf(),
            old(out).wf(),
        ensures
            final(self).wf(),
            final(out).wf(),
            old(out).extends(*final(out)),
            only_under(*old(out), *final(out), unit_path(*ctx.unit)),
            final(blocks)@ == old(blocks)@,
            walk_stmt(*old(self), *old(out), *ctx, old(blocks)@, *s, *final(self), *final(out), r is Ok),
        decreases s,
    {
        proof { Output::lemma_extends_refl(*out); }
        let r0 = self.hooks_statement(ctx, s, out);
        proof { lemma_point(*self, *out, r0 is Ok); }
        if r0.is_err() {
            return r0;
        }
        proof { Output::lemma_extends_refl(*out); }
        match s {
            Statement::VariableDeclarationStatement(d) => {
                match &mut self.explicit_variable_return {
                    Some(v) => v.visit_variable_declaration_statement(d),
                    None => {},
                }
                proof { lemma_point(*self, *out, true); }
                match &d.initial_value {
                    Some(e) => self.visit_expression(ctx, blocks, None, e, out),
                    None => Ok(()),
                }
            },
            Statement::IfStatement(st) => {
                let r1 = self.hooks_if(ctx, st, out);
                proof { lemma_point(*self, *out, r1 is Ok); }
                if r1.is_err() {
                    return r1;
                }
                let r2 = self.visit_block_or_statement(ctx, blocks, &st.true_body, out);
                proof { lemma_point(*self, *out, r2 is Ok); }
                if r2.is_err() {
                    return r2;
                }
                match &st.false_body {
                    Some(fb) => self.visit_block_or_statement(ctx, blocks, fb, out),
                    None => Ok(()),
                }
            },
            Statement::ForStatement(st) => {
                let r1 = self.hooks_for(ctx, st, out);
                proof { lemma_point(*self, *out, r1 is Ok); }
                if r1.is_err() {
                    return r1;
                }
                let r2 = match &st.initialization_expression {
                    Some(init) => self.visit_statement(ctx, blocks, init, out),
                    None => Ok(()),
                };
                proof { lemma_point(*self, *out, r2 is Ok); }
                if r2.is_err() {
                    return r2;
                }
                let r3 = match &st.condition {
                    Some(e) => self.visit_expression(ctx, blocks, None, e, out),
                    None => Ok(()),
                };
                proof { lemma_point(*self, *out, r3 is Ok); }
                if r3.is_err() {
                    return r3;
                }
                let r4 = match &st.loop_expression {
                    Some(l) => self.visit_statement(ctx, blocks, l, out),
                    None => Ok(()),
                };
                proof { lemma_point(*self, *out, r4 is Ok); }
                if r4.is_err() {
                    return r4;
                }
                let r5 = self.visit_block_or_statement(ctx, blocks, &st.body, out);
                proof { lemma_point(*self, *out, r5 is Ok); }
                if r5.is_err() {
                    return r5;
                }
                match &mut self.external_calls_in_loop {
                    Some(v) => v.leave_for_statement(st),
                    None => Ok(()),
                }
            },
            Statement::WhileStatement(st) => {
                let r1 = self.hooks_while(ctx, st, out);
                proof { lemma_point(*self, *out, r1 is Ok); }
                if r1.is_err() {
                    return r1;
                }
                let r2 = self.visit_expression(ctx, blocks, None, &st.condition, out);
                proof { lemma_point(*self, *out, r2 is Ok); }
                if r2.is_err() {
                    return r2;
                }
                let r3 = self.visit_block_or_statement(ctx, blocks, &st.body, out);
                proof { lemma_point(*self, *out, r3 is Ok); }
                if r3.is_err() {
                    return r3;
                }
                match &mut self.external_calls_in_loop {
                    Some(v) => v.leave_while_statement(st),
                    None => Ok(()),
                }
            },
            Statement::TryStatement { clauses, .. } => {
                let ghost d0 = *self;
                let ghost o0 = *out;
                let n = clauses.len();
                let mut i: usize = 0;
                assert(clauses@.subrange(0, 0) =~= Seq::<TryCatchClause>::empty());
                while i < n
                    invariant
                        n == clauses@.len(),
                        i <= n,
                        s is TryStatement && s->clauses == *clauses,
                        walk_point(d0, o0, true),
                        statement_visited(*old(self), *old(out), d0, o0, *ctx, *s, true),
                        self.wf(),
                        out.wf(),
                        old(out).extends(*out),
                        only_under(*old(out), *out, unit_path(*ctx.unit)),
                        blocks@ == old(blocks)@,
                        walk_clauses(d0, o0, *ctx, old(blocks)@, clauses@.subrange(0, i as int), *self, *out, true),
                    decreases n - i,
                {
                    proof {
                        assert(decreases_to!(*s => s->clauses));
                        assert(decreases_to!(*clauses => clauses@));
                        assert(decreases_to!(clauses@ => clauses@[i as int]));
                        assert(decreases_to!(clauses@[i as int] => clauses@[i as int].block));
                    }
                    let ghost dm = *self;
                    let ghost om = *out;
                    let r = self.visit_block(ctx, blocks, &clauses[i].block, out);
                    proof {
                        lemma_point(*self, *out, r is Ok);
                        lemma_point(dm, om, true);
                        let p = clauses@.subrange(0, i + 1);
                        assert(p.subrange(0, p.len() - 1) =~= clauses@.subrange(0, i as int));
                        assert(p[p.len() - 1] == clauses@[i as int]);
                        assert(walk_clauses(d0, o0, *ctx, old(blocks)@, clauses@.subrange(0, i as int), dm, om, true));
                        assert(walk_clauses(d0, o0, *ctx, old(blocks)@, p, *self, *out, r is Ok));
                    }
                    if r.is_err() {
                        proof { lemma_walk_clauses_stop(d0, o0, *ctx, old(blocks)@, clauses@, (i + 1) as int, *self, *out); }
                        return r;
                    }
                    i = i + 1;
                }
                assert(clauses@.subrange(0, n as int) =~= clauses@);
                Ok(())
            },
            Statement::UncheckedBlock(b) => self.visit_block(ctx, blocks, b, out),
            Statement::Return(ret) => {
                let r1 = match &mut self.explicit_variable_return {
                    Some(v) => v.visit_return(ctx, ret, out),
                    None => Ok(()),
                };
                proof { lemma_point(*self, *out, r1 is Ok); }
                if r1.is_err() {
                    return r1;
                }
                match &ret.expression {
                    Some(e) => self.visit_expression(ctx, blocks, Some(s), e, out),
                    None => Ok(()),
                }
            },
            Statement::ExpressionStatement { expression } => self.visit_expression(ctx, blocks, Some(s), expression, out),
            Statement::InlineAssembly(a) => self.visit_inline_assembly(ctx, a, out),
            Statement::UnhandledStatement { info, node_type } => {
                if !(str_eq(node_type.as_str(), "Break") || str_eq(node_type.as_str(), "Continue") || str_eq(
                    node_type.as_str(),
                    "PlaceholderStatement",
                )) {
                    out.print(unhandled_line("statement", node_type.as_str(), info.src.as_str(), info.id));
                }
                Ok(())
            },
            _ => Ok(()),
        }
    }

    /// The analyses' visits of an expression itself, before its parts.
    #[verifier::rlimit(80)]
    fn hooks_expression(&mut self, ctx: &DefCtx, blocks: &Vec<NodeId>, e: &Expression, out: &mut Output) -> (r: Result<
        (),
        AnalysisError,
    >)
        requires
            old(self).wf(),
            old(out).wf(),
        ensures
            final(self).wf(),
            final(out).wf(),
            old(out).extends(*final(out)),
            only_under(*old(out), *final(out), unit_path(*ctx.unit)),
            r is Ok <==> expression_ok(*old(self), *ctx, *e),
            expression_state(*old(self), *final(self), *ctx, blocks@, *e, r is Ok),
            expression_visited(*old(self), *old(out), *final(self), *final(out), *ctx, blocks@, *e, r is Ok),
            r is Ok ==> expression_output(*old(self), *old(out), *final(out), *ctx, *e),
    {
        proof {
            Output::lemma_extends_refl(*out);
            reveal(expression_ok);
            reveal(expression_entries);
            reveal(expression_lines);
        }
        let ghost o0 = *out;
        let ghost d0 = *self;
        let ghost path = unit_path(*ctx.unit);
        match e {
            Expression::Literal(l) => {
                match &mut self.large_literals {
                    Some(v) => {
                        let res = v.visit_literal(ctx, l, out);
                        proof {
                            lemma_reported_step(
                                o0,
                                *out,
                                *ctx.unit,
                                l.info.src@,
                                is_large_literal(*l),
                                location_text(*ctx.contract, *ctx.node)
                                    + " contains a large literal, which may be difficult to read: `"@ + spec_node_text(
                                    *ctx.unit,
                                    l.info.src@,
                                ) + "`"@,
                                res is Ok,
                            );
                        }
                        res?
                    },
                    None => {
                        assert(o0.report.entries_of(path) + expression_entries(d0, *ctx, *e) =~= o0.report.entries_of(path));
                        assert(printed_texts(o0) + expression_lines(d0, *ctx, *e) =~= printed_texts(o0));
                    },
                }
                proof {
                    lemma_begins_exactly(o0, *out, path, expression_entries(d0, *ctx, *e), expression_lines(d0, *ctx, *e));
                }
            },
            Expression::Identifier(id) => {
                self.hooks_identifier(ctx, id, out)?;
                proof {
                    assert(printed_texts(o0) + opt_line(
                        *ctx.unit,
                        loop_finding(d0.external_calls_in_loop, *ctx, Some(id.referenced_declaration), id.info.src@),
                    ) + opt_line(*ctx.unit, None) =~= printed_texts(o0) + expression_lines(d0, *ctx, *e));
                    lemma_begins_exactly(o0, *out, path, expression_entries(d0, *ctx, *e), expression_lines(d0, *ctx, *e));
                }
            },
            Expression::UnaryOperation(u) => {
                match &mut self.state_variable_mutability {
                    Some(v) => v.visit_unary_operation(ctx, u),
                    None => {
                        assert(o0.report.entries_of(path) + expression_entries(d0, *ctx, *e) =~= o0.report.entries_of(path));
                        assert(printed_texts(o0) + expression_lines(d0, *ctx, *e) =~= printed_texts(o0));
                    },
                }
                proof {
                    lemma_begins_exactly(o0, *out, path, expression_entries(d0, *ctx, *e), expression_lines(d0, *ctx, *e));
                }
            },
            Expression::BinaryOperation(b) => {
                self.hooks_binary_operation(ctx, b, out)?;
                proof {
                    lemma_begins_exactly(o0, *out, path, expression_entries(d0, *ctx, *e), expression_lines(d0, *ctx, *e));
                }
            },
            Expression::Conditional(c) => {
                match &mut self.assignment_comparisons {
                    Some(v) => {
                        let res = v.visit_conditional(ctx, c, out);
                        proof {
                            lemma_printed_step(
                                o0,
                                *out,
                                *ctx.unit,
                                c.info.src@,
                                definition_id(*ctx.node) is Some && contains_op(*c.condition, "="@),
                                assignment_text(
                                    location_text(*ctx.contract, *ctx.node),
                                    "a conditional expression"@,
                                    spec_node_text(*ctx.unit, c.info.src@),
                                ),
                                res is Ok,
                            );
                        }
                        res?
                    },
                    None => {
                        assert(o0.report.entries_of(path) + expression_entries(d0, *ctx, *e) =~= o0.report.entries_of(path));
                        assert(printed_texts(o0) + expression_lines(d0, *ctx, *e) =~= printed_texts(o0));
                    },
                }
                proof {
                    lemma_begins_exactly(o0, *out, path, expression_entries(d0, *ctx, *e), expression_lines(d0, *ctx, *e));
                }
            },
            Expression::Assignment(a) => {
                self.hooks_assignment(ctx, a, out)?;
                proof {
                    lemma_begins_exactly(o0, *out, path, expression_entries(d0, *ctx, *e), expression_lines(d0, *ctx, *e));
                }
            },
            Expression::FunctionCall(call) => {
                self.hooks_function_call(ctx, blocks, call, out)?;
                proof {
                    assert(o0.report.entries_of(path) + call_first_entries(d0, *ctx, *call) + call_rest_entries(d0, *ctx, *call)
                        =~= o0.report.entries_of(path) + expression_entries(d0, *ctx, *e));
                    assert(printed_texts(o0) + call_first_lines(d0, *ctx, *call) + call_rest_lines(d0, *ctx, *call)
                        =~= printed_texts(o0) + expression_lines(d0, *ctx, *e));
                    lemma_begins_exactly(o0, *out, path, expression_entries(d0, *ctx, *e), expression_lines(d0, *ctx, *e));
                }
            },
            Expression::FunctionCallOptions(call) => {
                match &mut self.secure_ether_transfer {
                    Some(v) => {
                        let res = v.visit_function_call_options(ctx, call, out);
                        proof {
                            lemma_printed_step(
                                o0,
                                *out,
                                *ctx.unit,
                                call.info.src@,
                                spec_raw_transfer(*call.expression),
                                location_text(*ctx.contract, *ctx.node) + " ignores the Secure-Ether-Transfer pattern: `"@
                                    + spec_node_text(*ctx.unit, call.info.src@) + "`"@,
                                res is Ok,
                            );
                        }
                        res?
                    },
                    None => {
                        assert(o0.report.entries_of(path) + expression_entries(d0, *ctx, *e) =~= o0.report.entries_of(path));
                        assert(printed_texts(o0) + expression_lines(d0, *ctx, *e) =~= printed_texts(o0));
                    },
                }
                proof {
                    lemma_begins_exactly(o0, *out, path, expression_entries(d0, *ctx, *e), expression_lines(d0, *ctx, *e));
                }
            },
            Expression::MemberAccess(m) => {
                self.hooks_member_access(ctx, m, out)?;
                proof {
                    lemma_begins_exactly(o0, *out, path, expression_entries(d0, *ctx, *e), expression_lines(d0, *ctx, *e));
                }
            },
            _ => {
                proof {
                    lemma_begins_exactly(o0, *out, path, expression_entries(d0, *ctx, *e), expression_lines(d0, *ctx, *e));
                }
            },
        }
        Ok(())
    }

    /// Walks an expression: the expression itself, then its parts in order.
    pub fn visit_expression(
        &mut self,
        ctx: &DefCtx,
        blocks: &Vec<NodeId>,
        statement: Option<&Statement>,
        e: &Expression,
        out: &mut Output,
    ) -> (r: Result<(), AnalysisError>)
        requires
            old(self).wf(),
            old(out).wf(),
        ensures
            final(self).wf(),
            final(out).wf(),
            old(out).extends(*final(out)),
            only_under(*old(out), *final(out), unit_path(*ctx.unit)),
            walk_expr(*old(self), *old(out), *ctx, blocks@, *e, *final(self), *final(out), r is Ok),
        decreases e,
    {
        proof {
            Output::lemma_extends_refl(*out);
            reveal(walk_expr);
        }
        let ghost o0 = *out;
        let ghost d0 = *self;
        let r0 = self.hooks_expression(ctx, blocks, e, out);
        proof { lemma_point(*self, *out, r0 is Ok); }
        let ghost d1 = *self;
        let ghost o1 = *out;
        if r0.is_err() {
            return r0;
        }
        proof { Output::lemma_extends_refl(*out); }
        match e {
            Expression::UnaryOperation(u) => self.visit_expression(ctx, blocks, statement, &u.sub_expression, out),
            Expression::BinaryOperation(b) => {
                let r1 = self.visit_expression(ctx, blocks, statement, &b.left_expression, out);
                proof { lemma_point(*self, *out, r1 is Ok); }
                if r1.is_err() {
                    return r1;
                }
                self.visit_expression(ctx, blocks, statement, &b.right_expression, out)
            },
            Expression::Conditional(c) => {
                let r1 = self.visit_expression(ctx, blocks, statement, &c.condition, out);
                proof { lemma_point(*self, *out, r1 is Ok); }
                if r1.is_err() {
                    return r1;
                }
                let r2 = self.visit_expression(ctx, blocks, statement, &c.true_expression, out);
                proof { lemma_point(*self, *out, r2 is Ok); }
                if r2.is_err() {
                    return r2;
                }
                self.visit_expression(ctx, blocks, statement, &c.false_expression, out)
            },
            Expression::Assignment(a) => {
                let r1 = self.visit_expression(ctx, blocks, statement, &a.left_hand_side, out);
                proof { lemma_point(*self, *out, r1 is Ok); }
                if r1.is_err() {
                    return r1;
                }
                self.visit_expression(ctx, blocks, statement, &a.right_hand_side, out)
            },
            Expression::FunctionCall(call) => {
                let r1 = self.visit_expression(ctx, blocks, statement, &call.expression, out);
                proof { lemma_point(*self, *out, r1 is Ok); }
                if r1.is_err() {
                    return r1;
                }
                self.visit_expressions(ctx, blocks, statement, &call.arguments, out)
            },
            Expression::FunctionCallOptions(call) => {
                let r1 = self.visit_expression(ctx, blocks, statement, &call.expression, out);
                proof { lemma_point(*self, *out, r1 is Ok); }
                if r1.is_err() {
                    return r1;
                }
                self.visit_expressions(ctx, blocks, statement, &call.options, out)
            },
            Expression::IndexAccess(ia) => {
                let r1 = self.visit_expression(ctx, blocks, statement, &ia.base_expression, out);
                proof { lemma_point(*self, *out, r1 is Ok); }
                if r1.is_err() {
                    return r1;
                }
                self.visit_opt_expression(ctx, blocks, statement, &ia.index_expression, out)
            },
            Expression::IndexRangeAccess(ra) => {
                let r1 = self.visit_expression(ctx, blocks, statement, &ra.base_expression, out);
                proof { lemma_point(*self, *out, r1 is Ok); }
                if r1.is_err() {
                    return r1;
                }
                let r2 = self.visit_opt_expression(ctx, blocks, statement, &ra.start_expression, out);
                proof { lemma_point(*self, *out, r2 is Ok); }
                if r2.is_err() {
                    return r2;
                }
                self.visit_opt_expression(ctx, blocks, statement, &ra.end_expression, out)
            },
            Expression::MemberAccess(m) => self.visit_expression(ctx, blocks, statement, &m.expression, out),
            Expression::TupleExpression(t) => self.visit_components(ctx, blocks, statement, &t.components, out),
            Expression::UnhandledExpression { info, node_type } => {
                if !str_eq(node_type.as_str(), "PlaceholderStatement") {
                    out.print(unhandled_line("expression", node_type.as_str(), info.src.as_str(), info.id));
                }
                Ok(())
            },
            _ => Ok(()),
        }
    }

    /// Walks an optional expression.
    pub fn visit_opt_expression(
        &mut self,
        ctx: &DefCtx,
        blocks: &Vec<NodeId>,
        statement: Option<&Statement>,
        x: &Option<Box<Expression>>,
        out: &mut Output,
    ) -> (r: Result<(), AnalysisError>)
        requires
            old(self).wf(),
            old(out).wf(),
        ensures
            final(self).wf(),
            final(out).wf(),
            old(out).extends(*final(out)),
            only_under(*old(out), *final(out), unit_path(*ctx.unit)),
            walk_opt_expr(*old(self), *old(out), *ctx, blocks@, *x, *final(self), *final(out), r is Ok),
        decreases x,
    {
        proof {
            Output::lemma_extends_refl(*out);
            reveal(walk_expr);
        }
        match x {
            Some(e) => self.visit_expression(ctx, blocks, statement, e, out),
            None => Ok(()),
        }
    }

    /// Walks expressions one after another, up to the first that fails.
    pub fn visit_expressions(
        &mut self,
        ctx: &DefCtx,
        blocks: &Vec<NodeId>,
        statement: Option<&Statement>,
        es: &Vec<Expression>,
        out: &mut Output,
    ) -> (r: Result<(), AnalysisError>)
        requires
            old(self).wf(),
            old(out).wf(),
        ensures
            final(self).wf(),
            final(out).wf(),
            old(out).extends(*final(out)),
            only_under(*old(out), *final(out), unit_path(*ctx.unit)),
            walk_exprs(*old(self), *old(out), *ctx, blocks@, es@, *final(self), *final(out), r is Ok),
        decreases es,
    {
        proof {
            Output::lemma_extends_refl(*out);
            reveal(walk_expr);
        }
        let ghost d0 = *self;
        let ghost o0 = *out;
        let n = es.len();
        let mut i: usize = 0;
        assert(es@.subrange(0, 0) =~= Seq::<Expression>::empty());
        while i < n
            invariant
                n == es@.len(),
                i <= n,
                self.wf(),
                out.wf(),
                old(out).extends(*out),
                only_under(*old(out), *out, unit_path(*ctx.unit)),
                walk_exprs(d0, o0, *ctx, blocks@, es@.subrange(0, i as int), *self, *out, true),
                d0 == *old(self),
                o0 == *old(out),
            decreases n - i,
        {
            proof {
                assert(decreases_to!(es => es@));
                assert(decreases_to!(es@ => es@[i as int]));
            }
            let ghost dm = *self;
            let ghost om = *out;
            let r = self.visit_expression(ctx, blocks, statement, &es[i], out);
            proof {
                lemma_point(*self, *out, r is Ok);
                lemma_point(dm, om, true);
                let p = es@.subrange(0, i + 1);
                assert(p.subrange(0, p.len() - 1) =~= es@.subrange(0, i as int));
                assert(p[p.len() - 1] == es@[i as int]);
                assert(walk_exprs(d0, o0, *ctx, blocks@, es@.subrange(0, i as int), dm, om, true));
                reveal(walk_expr);
                assert(walk_exprs(d0, o0, *ctx, blocks@, p, *self, *out, r is Ok));
            }
            if r.is_err() {
                proof { lemma_walk_exprs_stop(d0, o0, *ctx, blocks@, es@, (i + 1) as int, *self, *out); }
                return r;
            }
            i = i + 1;
        }
        assert(es@.subrange(0, n as int) =~= es@);
        Ok(())
    }

    /// Walks a tuple's components that are there, one after another, up to
    /// the first that fails.
    pub fn visit_components(
        &mut self,
        ctx: &DefCtx,
        blocks: &Vec<NodeId>,
        statement: Option<&Statement>,
        es: &Vec<Option<Expression>>,
        out: &mut Output,
    ) -> (r: Result<(), AnalysisError>)
        requires
            old(self).wf(),
            old(out).wf(),
        ensures
            final(self).wf(),
            final(out).wf(),
            old(out).extends(*final(out)),
            only_under(*old(out), *final(out), unit_path(*ctx.unit)),
            walk_components(*old(self), *old(out), *ctx, blocks@, es@, *final(self), *final(out), r is Ok),
        decreases es,
    {
        proof {
            Output::lemma_extends_refl(*out);
            reveal(walk_expr);
        }
        let ghost d0 = *self;
        let ghost o0 = *out;
        let n = es.len();
        let mut i: usize = 0;
        assert(es@.subrange(0, 0) =~= Seq::<Option<Expression>>::empty());
        while i < n
            invariant
                n == es@.len(),
                i <= n,
                self.wf(),
                out.wf(),
                old(out).extends(*out),
                only_under(*old(out), *out, unit_path(*ctx.unit)),
                walk_components(d0, o0, *ctx, blocks@, es@.subrange(0, i as int), *self, *out, true),
                d0 == *old(self),
                o0 == *old(out),
            decreases n - i,
        {
            proof {
                assert(decreases_to!(es => es@));
                assert(decreases_to!(es@ => es@[i as int]));
            }
            let ghost dm = *self;
            let ghost om = *out;
            let r = match &es[i] {
                Some(x) => {
                    proof { assert(decreases_to!(es@[i as int] => es@[i as int]->Some_0)); }
                    self.visit_expression(ctx, blocks, statement, x, out)
                },
                None => Ok(()),
            };
            proof {
                lemma_point(*self, *out, r is Ok);
                lemma_point(dm, om, true);
                let p = es@.subrange(0, i + 1);
                assert(p.subrange(0, p.len() - 1) =~= es@.subrange(0, i as int));
                assert(p[p.len() - 1] == es@[i as int]);
                assert(walk_components(d0, o0, *ctx, blocks@, es@.subrange(0, i as int), dm, om, true));
                reveal(walk_expr);
                assert(walk_components(d0, o0, *ctx, blocks@, p, *self, *out, r is Ok));
            }
            if r.is_err() {
                proof { lemma_walk_components_stop(d0, o0, *ctx, blocks@, es@, (i + 1) as int, *self, *out); }
                return r;
            }
            i = i + 1;
        }
        assert(es@.subrange(0, n as int) =~= es@);
        Ok(())
    }

    /// Walks an inline assembly statement and the Yul code it holds.
    pub fn visit_inline_assembly(&mut self, ctx: &DefCtx, a: &InlineAssembly, out: &mut Output) -> (r: Result<
        (),
        AnalysisError,
    >)
        requires
            old(self).wf(),
            old(out).wf(),
        ensures
            final(self).wf(),
            final(out).wf(),
            old(out).extends(*final(out)),
            only_under(*old(out), *final(out), unit_path(*ctx.unit)),
            walk_asm(*old(self), *old(out), *ctx, *a, *final(self), *final(out), r is Ok),
    {
        proof {
            Output::lemma_extends_refl(*out);
            reveal(walk_asm);
        }
        let ghost d0 = *self;
        let r0 = match &mut self.inline_assembly {
            Some(v) => v.visit_inline_assembly(ctx, a, out),
            None => Ok(()),
        };
        proof {
            assert(*self == d0);
            lemma_point(*self, *out, r0 is Ok);
            if d0.inline_assembly is Some && r0 is Ok {
                assert(old(out).report.entries_of(unit_path(*ctx.unit)) + assembly_entries(d0, *ctx, *a) =~= out.report.entries_of(
                    unit_path(*ctx.unit),
                ));
            }
            assert(asm_visited(d0, *old(out), *out, *ctx, *a, r0 is Ok));
        }
        if r0.is_err() {
            return r0;
        }
        proof { Output::lemma_extends_refl(*out); }
        match &a.ast {
            Some(yb) => self.visit_yul_block(ctx, a, yb, out),
            None => Ok(()),
        }
    }

    pub fn visit_yul_block(&mut self, ctx: &DefCtx, a: &InlineAssembly, yb: &YulBlock, out: &mut Output) -> (r: Result<
        (),
        AnalysisError,
    >)
        requires
            old(self).wf(),
            old(out).wf(),
        ensures
            final(self).wf(),
            final(out).wf(),
            old(out).extends(*final(out)),
            only_under(*old(out), *final(out), unit_path(*ctx.unit)),
            walk_yul_block(*old(self), *old(out), *ctx, *a, *yb, *final(self), *final(out), r is Ok),
        decreases yb,
    {
        proof { Output::lemma_extends_refl(*out); }
        let ghost d0 = *self;
        let ghost o0 = *out;
        let n = yb.statements.len();
        let mut i: usize = 0;
        assert(yb.statements@.subrange(0, 0) =~= Seq::<YulStatement>::empty());
        while i < n
            invariant
                n == yb.statements@.len(),
                i <= n,
                self.wf(),
                out.wf(),
                old(out).extends(*out),
                only_under(*old(out), *out, unit_path(*ctx.unit)),
                d0 == *old(self),
                o0 == *old(out),
                walk_yul_stmts(d0, o0, *ctx, *a, yb.statements@.subrange(0, i as int), *self, *out, true),
            decreases n - i,
        {
            proof {
                assert(decreases_to!(yb.statements => yb.statements@));
                assert(decreases_to!(yb.statements@ => yb.statements@[i as int]));
            }
            let ghost dm = *self;
            let ghost om = *out;
            let r = self.visit_yul_statement(ctx, a, &yb.statements[i], out);
            proof {
                lemma_point(*self, *out, r is Ok);
                lemma_point(dm, om, true);
                let p = yb.statements@.subrange(0, i + 1);
                assert(p.subrange(0, p.len() - 1) =~= yb.statements@.subrange(0, i as int));
                assert(p[p.len() - 1] == yb.statements@[i as int]);
                assert(walk_yul_stmts(d0, o0, *ctx, *a, yb.statements@.subrange(0, i as int), dm, om, true));
                assert(walk_yul_stmts(d0, o0, *ctx, *a, p, *self, *out, r is Ok));
            }
            if r.is_err() {
                proof { lemma_walk_yul_stmts_stop(d0, o0, *ctx, *a, yb.statements@, (i + 1) as int, *self, *out); }
                return r;
            }
            i = i + 1;
        }
        assert(yb.statements@.subrange(0, n as int) =~= yb.statements@);
        Ok(())
    }

    pub fn visit_yul_statement(&mut self, ctx: &DefCtx, a: &InlineAssembly, ys: &YulStatement, out: &mut Output) -> (r:
        Result<(), AnalysisError>)
        requires
            old(self).wf(),
            old(out).wf(),
        ensures
            final(self).wf(),
            final(out).wf(),
            old(out).extends(*final(out)),
            only_under(*old(out), *final(out), unit_path(*ctx.unit)),
            walk_yul_stmt(*old(self), *old(out), *ctx, *a, *ys, *final(self), *final(out), r is Ok),
        decreases ys,
    {
        proof { Output::lemma_extends_refl(*out); }
        match ys {
            YulStatement::YulIf { condition, body } => {
                let r1 = self.visit_yul_expression(ctx, a, Some(ys), condition, out);
                proof { lemma_point(*self, *out, r1 is Ok); }
                if r1.is_err() {
                    return r1;
                }
                self.visit_yul_block(ctx, a, body, out)
            },
            YulStatement::YulSwitch { expression, cases } => {
                let r1 = self.visit_yul_expression(ctx, a, Some(ys), expression, out);
                proof { lemma_point(*self, *out, r1 is Ok); }
                if r1.is_err() {
                    return r1;
                }
                let ghost d0 = *self;
                let ghost o0 = *out;
                let n = cases.len();
                let mut i: usize = 0;
                assert(cases@.subrange(0, 0) =~= Seq::<YulCase>::empty());
                while i < n
                    invariant
                        n == cases@.len(),
                        i <= n,
                        ys is YulSwitch && ys->cases == *cases,
                        *ys == (YulStatement::YulSwitch { expression: *expression, cases: *cases }),
                        walk_point(d0, o0, true),
                        walk_yul_expr(*old(self), *old(out), *ctx, *a, *expression, d0, o0, true),
                        self.wf(),
                        out.wf(),
                        old(out).extends(*out),
                        only_under(*old(out), *out, unit_path(*ctx.unit)),
                        walk_yul_cases(d0, o0, *ctx, *a, cases@.subrange(0, i as int), *self, *out, true),
                    decreases n - i,
                {
                    proof {
                        assert(decreases_to!(*ys => ys->cases));
                        assert(decreases_to!(*cases => cases@));
                        assert(decreases_to!(cases@ => cases@[i as int]));
                        assert(decreases_to!(cases@[i as int] => cases@[i as int].body));
                    }
                    let ghost dm = *self;
                    let ghost om = *out;
                    let r2 = match &cases[i].value {
                        Some(v) => self.visit_yul_expression(ctx, a, Some(ys), v, out),
                        None => Ok(()),
                    };
                    let ghost d3 = *self;
                    let ghost o3 = *out;
                    proof { lemma_point(d3, o3, r2 is Ok); }
                    let r = if r2.is_err() {
                        r2
                    } else {
                        self.visit_yul_block(ctx, a, &cases[i].body, out)
                    };
                    proof {
                        lemma_point(*self, *out, r is Ok);
                        lemma_point(dm, om, true);
                        let p = cases@.subrange(0, i + 1);
                        assert(p.subrange(0, p.len() - 1) =~= cases@.subrange(0, i as int));
                        assert(p[p.len() - 1] == cases@[i as int]);
                        assert(walk_yul_cases(d0, o0, *ctx, *a, cases@.subrange(0, i as int), dm, om, true));
                        assert(walk_yul_cases(d0, o0, *ctx, *a, p, *self, *out, r is Ok));
                    }
                    if r.is_err() {
                        proof { lemma_walk_yul_cases_stop(d0, o0, *ctx, *a, cases@, (i + 1) as int, *self, *out); }
                        return r;
                    }
                    i = i + 1;
                }
                assert(cases@.subrange(0, n as int) =~= cases@);
                Ok(())
            },
            YulStatement::YulAssignment { variable_names, value } => {
                match &mut self.missing_return {
                    Some(v) => v.visit_yul_assignment(ctx, variable_names),
                    None => {},
                }
                proof { lemma_point(*self, *out, true); }
                self.visit_yul_expression(ctx, a, Some(ys), value, out)
            },
            YulStatement::YulVariableDeclaration { value, .. } => {
                match value {
                    Some(v) => self.visit_yul_expression(ctx, a, Some(ys), v, out),
                    None => Ok(()),
                }
            },
            YulStatement::YulExpressionStatement { expression } => {
                self.visit_yul_expression(ctx, a, Some(ys), expression, out)
            },
            YulStatement::UnhandledYulStatement { info, node_type } => {
                out.print(unhandled_line("yul statement", node_type.as_str(), info.src.as_str(), info.id));
                Ok(())
            },
        }
    }

    pub fn visit_yul_expression(
        &mut self,
        ctx: &DefCtx,
        a: &InlineAssembly,
        ys: Option<&YulStatement>,
        ye: &YulExpression,
        out: &mut Output,
    ) -> (r: Result<(), AnalysisError>)
        requires
            old(self).wf(),
            old(out).wf(),
        ensures
            final(self).wf(),
            final(out).wf(),
            old(out).extends(*final(out)),
            only_under(*old(out), *final(out), unit_path(*ctx.unit)),
            walk_yul_expr(*old(self), *old(out), *ctx, *a, *ye, *final(self), *final(out), r is Ok),
        decreases ye,
    {
        proof { Output::lemma_extends_refl(*out); }
        match ye {
            YulExpression::YulFunctionCall { function_name, arguments } => {
                let ghost d0 = *self;
                let r1 = match &mut self.inline_assembly {
                    Some(v) => v.visit_yul_function_call(ctx, a, function_name, arguments, out),
                    None => Ok(()),
                };
                proof {
                    assert(*self == d0);
                    lemma_point(*self, *out, r1 is Ok);
                    assert(yul_call_visited(d0, *old(out), *out, *ctx, *a, function_name@, arguments@, r1 is Ok));
                }
                if r1.is_err() {
                    return r1;
                }
                let ghost o1 = *out;
                proof { Output::lemma_extends_refl(*out); }
                let n = arguments.len();
                let mut i: usize = 0;
                assert(arguments@.subrange(0, 0) =~= Seq::<YulExpression>::empty());
                while i < n
                    invariant
                        n == arguments@.len(),
                        i <= n,
                        *ye == (YulExpression::YulFunctionCall { function_name: *function_name, arguments: *arguments }),
                        d0 == *old(self),
                        walk_point(d0, o1, true),
                        yul_call_visited(d0, *old(out), o1, *ctx, *a, function_name@, arguments@, true),
                        self.wf(),
                        out.wf(),
                        old(out).extends(*out),
                        only_under(*old(out), *out, unit_path(*ctx.unit)),
                        walk_yul_exprs(d0, o1, *ctx, *a, arguments@.subrange(0, i as int), *self, *out, true),
                    decreases n - i,
                {
                    proof {
                        assert(decreases_to!(*ye => ye->arguments));
                        assert(decreases_to!(*arguments => arguments@));
                        assert(decreases_to!(arguments@ => arguments@[i as int]));
                    }
                    let ghost dm = *self;
                    let ghost om = *out;
                    let r = self.visit_yul_expression(ctx, a, ys, &arguments[i], out);
                    proof {
                        lemma_point(*self, *out, r is Ok);
                        lemma_point(dm, om, true);
                        let p = arguments@.subrange(0, i + 1);
                        assert(p.subrange(0, p.len() - 1) =~= arguments@.subrange(0, i as int));
                        assert(p[p.len() - 1] == arguments@[i as int]);
                        assert(walk_yul_exprs(d0, o1, *ctx, *a, arguments@.subrange(0, i as int), dm, om, true));
                        assert(walk_yul_exprs(d0, o1, *ctx, *a, p, *self, *out, r is Ok));
                    }
                    if r.is_err() {
                        proof { lemma_walk_yul_exprs_stop(d0, o1, *ctx, *a, arguments@, (i + 1) as int, *self, *out); }
                        return r;
                    }
                    i = i + 1;
                }
                assert(arguments@.subrange(0, n as int) =~= arguments@);
                Ok(())
            },
            YulExpression::UnhandledYulExpression { info, node_type } => {
                out.print(unhandled_line("yul expression", node_type.as_str(), info.src.as_str(), info.id));
                Ok(())
            },
            _ => Ok(()),
        }
    }
}

/// The paths of a project's source units, in order.
pub open spec fn unit_paths(units: Seq<SourceUnit>) -> Seq<Option<Seq<char>>> {
    units.map_values(|u: SourceUnit| match u.absolute_path {
        Some(p) => Some(p@),
        None => None,
    })
}

/// A path of a package dependency: one that starts with `@`.
pub open spec fn is_package_path(p: Seq<char>) -> bool {
    p.len() > 0 && p[0] == '@'
}

/// Which source units a project walk visits, and the paths it has visited:
/// each unit in order, but for one whose path is a package path or was
/// visited before. Units without a path are always visited.
pub open spec fn project_walk(paths: Seq<Option<Seq<char>>>) -> (Seq<int>, Set<Seq<char>>)
    decreases paths.len(),
{
    if paths.len() == 0 {
        (Seq::empty(), Set::empty())
    } else {
        let prev = project_walk(paths.drop_last());
        let k = paths.len() - 1;
        match paths[k] {
            None => (prev.0.push(k), prev.1),
            Some(p) => if is_package_path(p) || prev.1.contains(p) {
                prev
            } else {
                (prev.0.push(k), prev.1.insert(p))
            },
        }
    }
}

/// What a project walk keeps: the units it visits come in source order; none
/// is a package path; every path it has visited is recorded, and recorded
/// paths are paths it visited.
pub open spec fn walk_facts(paths: Seq<Option<Seq<char>>>) -> bool {
    let (w, seen) = project_walk(paths);
    &&& forall|j: int| 0 <= j < w.len() ==> 0 <= #[trigger] w[j] < paths.len()
    &&& forall|a: int, b: int| 0 <= a < b < w.len() ==> #[trigger] w[a] < #[trigger] w[b]
    &&& forall|j: int| 0 <= j < w.len() ==> match #[trigger] paths[w[j]] {
        Some(p) => !is_package_path(p) && seen.contains(p),
        None => true,
    }
    &&& forall|p: Seq<char>| #[trigger] seen.contains(p) ==> exists|j: int| 0 <= j < w.len() && paths[#[trigger] w[j]] == Some(p)
}

proof fn lemma_walk_facts(paths: Seq<Option<Seq<char>>>)
    ensures
        walk_facts(paths),
    decreases paths.len(),
{
    if paths.len() > 0 {
        let prev_paths = paths.drop_last();
        lemma_walk_facts(prev_paths);
        let (w0, s0) = project_walk(prev_paths);
        let k = paths.len() - 1;
        assert forall|i: int| 0 <= i < prev_paths.len() implies prev_paths[i] == paths[i] by {}
        let (w, seen) = project_walk(paths);
        assert forall|j: int| 0 <= j < w.len() implies 0 <= #[trigger] w[j] < paths.len() by {
            if j < w0.len() {
                assert(w[j] == w0[j]);
            }
        }
        assert forall|a: int, b: int| 0 <= a < b < w.len() implies #[trigger] w[a] < #[trigger] w[b] by {
            assert(w[a] == w0[a]);
            if b < w0.len() {
                assert(w[b] == w0[b]);
            }
        }
        assert forall|j: int| 0 <= j < w.len() implies match #[trigger] paths[w[j]] {
            Some(p) => !is_package_path(p) && seen.contains(p),
            None => true,
        } by {
            if j < w0.len() {
                assert(w[j] == w0[j]);
                assert(paths[w0[j]] == prev_paths[w0[j]]);
            }
        }
        assert forall|p: Seq<char>| #[trigger] seen.contains(p) implies exists|j: int| 0 <= j < w.len() && paths[#[trigger] w[j]] == Some(p) by {
            if s0.contains(p) {
                let j = choose|j: int| 0 <= j < w0.len() && prev_paths[#[trigger] w0[j]] == Some(p);
                assert(w[j] == w0[j]);
                assert(paths[w[j]] == Some(p));
            } else {
                assert(w[w.len() - 1] == k);
            }
        }
    }
}

/// A project walk visits the source units in their order, never one whose
/// path is a package path, and never a path twice.
pub proof fn lemma_project_walk_visits_each_path_once(paths: Seq<Option<Seq<char>>>)
    ensures
        forall|a: int, b: int|
            0 <= a < b < project_walk(paths).0.len() ==> #[trigger] project_walk(paths).0[a]
                < #[trigger] project_walk(paths).0[b],
        forall|j: int|
            0 <= j < project_walk(paths).0.len() ==> (#[trigger] paths[project_walk(paths).0[j]] matches Some(p)
                ==> !is_package_path(p)),
        forall|a: int, b: int|
            0 <= a < b < project_walk(paths).0.len() && paths[project_walk(paths).0[a]] is Some ==> paths[
                #[trigger] project_walk(paths).0[a]] != paths[#[trigger] project_walk(paths).0[b]],
    decreases paths.len(),
{
    lemma_walk_facts(paths);
    let (w, seen) = project_walk(paths);
    assert forall|j: int| 0 <= j < w.len() implies (#[trigger] paths[w[j]] matches Some(p) ==> !is_package_path(p)) by {
        assert(0 <= w[j] < paths.len());
    }
    if paths.len() > 0 {
        let prev_paths = paths.drop_last();
        lemma_project_walk_visits_each_path_once(prev_paths);
        lemma_walk_facts(prev_paths);
        let (w0, s0) = project_walk(prev_paths);
        let k = paths.len() - 1;
        assert forall|a: int, b: int|
            0 <= a < b < w.len() && paths[w[a]] is Some implies paths[#[trigger] w[a]] != paths[#[trigger] w[b]] by {
            assert(w[a] == w0[a]);
            assert(0 <= w0[a] < prev_paths.len());
            assert(paths[w0[a]] == prev_paths[w0[a]]);
            if b < w0.len() {
                assert(w[b] == w0[b]);
                assert(paths[w0[b]] == prev_paths[w0[b]]);
            } else {
                assert(w[b] == k);
                match paths[k] {
                    Some(p) => {
                        assert(!s0.contains(p));
                        if paths[w[a]] == paths[w[b]] {
                            assert(prev_paths[w0[a]] == Some(p));
                        }
                    },
                    None => {},
                }
            }
        }
    }
}

/// Which source units `visit_source_units` visits: each in order, up to the
/// first whose path was visited before, where the walk ends.
pub open spec fn walk_until_repeat(paths: Seq<Option<Seq<char>>>) -> (Seq<int>, Set<Seq<char>>, bool)
    decreases paths.len(),
{
    if paths.len() == 0 {
        (Seq::empty(), Set::empty(), false)
    } else {
        let prev = walk_until_repeat(paths.drop_last());
        let k = paths.len() - 1;
        if prev.2 {
            prev
        } else {
            match paths[k] {
                None => (prev.0.push(k), prev.1, false),
                Some(p) => if prev.1.contains(p) {
                    (prev.0, prev.1, true)
                } else {
                    (prev.0.push(k), prev.1.insert(p), false)
                },
            }
        }
    }
}

fn contains_path(seen: &Vec<String>, p: &String) -> (r: bool)
    ensures
        r == exists|k: int| 0 <= k < seen@.len() && (#[trigger] seen@[k])@ == p@,
{
    let mut k: usize = 0;
    while k < seen.len()
        invariant
            k <= seen@.len(),
            forall|j: int| 0 <= j < k ==> (#[trigger] seen@[j])@ != p@,
        decreases seen@.len() - k,
    {
        if str_eq(seen[k].as_str(), p.as_str()) {
            return true;
        }
        k = k + 1;
    }
    false
}

/// The source units a project walk visits, by index, in order: it skips
/// package paths and paths already visited.
pub fn units_to_analyze(units: &Vec<SourceUnit>) -> (r: Vec<usize>)
    ensures
        r@.map_values(|i: usize| i as int) == project_walk(unit_paths(units@)).0,
        forall|k: int| 0 <= k < r@.len() ==> r@[k] < units@.len(),
{
    let ghost paths = unit_paths(units@);
    let mut r: Vec<usize> = Vec::new();
    let mut seen: Vec<String> = Vec::new();
    let mut i: usize = 0;
    assert(paths.take(0) =~= Seq::<Option<Seq<char>>>::empty());
    assert(r@.map_values(|i: usize| i as int) =~= Seq::<int>::empty());
    while i < units.len()
        invariant
            paths == unit_paths(units@),
            i <= units@.len(),
            r@.map_values(|i: usize| i as int) == project_walk(paths.take(i as int)).0,
            forall|p: Seq<char>| project_walk(paths.take(i as int)).1.contains(p) <==> exists|k: int|
                0 <= k < seen@.len() && (#[trigger] seen@[k])@ == p,
            forall|k: int| 0 <= k < r@.len() ==> r@[k] < i,
        decreases units@.len() - i,
    {
        let ghost prev = project_walk(paths.take(i as int));
        assert(paths.take(i + 1).drop_last() =~= paths.take(i as int));
        assert(paths.take(i + 1)[i as int] == paths[i as int]);
        let ghost before = r@.map_values(|i: usize| i as int);
        match &units[i].absolute_path {
            None => {
                r.push(i);
                assert(r@.map_values(|i: usize| i as int) =~= before.push(i as int));
            },
            Some(p) => {
                let pkg = crate::text::starts_with(p.as_str(), "@");
                proof {
                    reveal_strlit("@");
                    if pkg {
                        assert(p@.subrange(0, 1)[0] == p@[0]);
                    }
                    if is_package_path(p@) {
                        assert(p@.subrange(0, 1) =~= "@"@);
                    }
                    assert(pkg == is_package_path(p@));
                }
                if !pkg && !contains_path(&seen, p) {
                    r.push(i);
                    assert(r@.map_values(|i: usize| i as int) =~= before.push(i as int));
                    let ghost old_seen = seen@;
                    seen.push(p.clone());
                    assert forall|q: Seq<char>| prev.1.insert(p@).contains(q) <==> exists|k: int|
                        0 <= k < seen@.len() && (#[trigger] seen@[k])@ == q by {
                        if q == p@ {
                            assert(seen@[old_seen.len() as int]@ == q);
                        }
                        if exists|k: int| 0 <= k < seen@.len() && (#[trigger] seen@[k])@ == q {
                            let k = choose|k: int| 0 <= k < seen@.len() && (#[trigger] seen@[k])@ == q;
                            if k < old_seen.len() {
                                assert(old_seen[k] == seen@[k]);
                            }
                        }
                        if prev.1.contains(q) && q != p@ {
                            let k = choose|k: int| 0 <= k < old_seen.len() && (#[trigger] old_seen[k])@ == q;
                            assert(seen@[k] == old_seen[k]);
                        }
                    }
                }
            },
        }
        i = i + 1;
    }
    assert(paths.take(units@.len() as int) =~= paths);
    r
}

/// The source units `visit_source_units` walks, by index, in order: each up
/// to the first whose path repeats one walked before.
pub fn units_until_repeat(units: &Vec<SourceUnit>) -> (r: Vec<usize>)
    ensures
        r@.map_values(|i: usize| i as int) == walk_until_repeat(unit_paths(units@)).0,
        forall|k: int| 0 <= k < r@.len() ==> r@[k] < units@.len(),
{
    let ghost paths = unit_paths(units@);
    let mut r: Vec<usize> = Vec::new();
    let mut seen: Vec<String> = Vec::new();
    let mut stopped = false;
    let mut i: usize = 0;
    assert(paths.take(0) =~= Seq::<Option<Seq<char>>>::empty());
    assert(r@.map_values(|i: usize| i as int) =~= Seq::<int>::empty());
    while i < units.len()
        invariant
            paths == unit_paths(units@),
            i <= units@.len(),
            r@.map_values(|i: usize| i as int) == walk_until_repeat(paths.take(i as int)).0,
            stopped == walk_until_repeat(paths.take(i as int)).2,
            forall|p: Seq<char>| walk_until_repeat(paths.take(i as int)).1.contains(p) <==> exists|k: int|
                0 <= k < seen@.len() && (#[trigger] seen@[k])@ == p,
            forall|k: int| 0 <= k < r@.len() ==> r@[k] < i,
        decreases units@.len() - i,
    {
        let ghost prev = walk_until_repeat(paths.take(i as int));
        assert(paths.take(i + 1).drop_last() =~= paths.take(i as int));
        assert(paths.take(i + 1)[i as int] == paths[i as int]);
        let ghost before = r@.map_values(|i: usize| i as int);
        if !stopped {
            match &units[i].absolute_path {
                None => {
                    r.push(i);
                    assert(r@.map_values(|i: usize| i as int) =~= before.push(i as int));
                },
                Some(p) => {
                    if contains_path(&seen, p) {
                        stopped = true;
                    } else {
                        r.push(i);
                        assert(r@.map_values(|i: usize| i as int) =~= before.push(i as int));
                        let ghost old_seen = seen@;
                        seen.push(p.clone());
                        assert forall|q: Seq<char>| prev.1.insert(p@).contains(q) <==> exists|k: int|
                            0 <= k < seen@.len() && (#[trigger] seen@[k])@ == q by {
                            if q == p@ {
                                assert(seen@[old_seen.len() as int]@ == q);
                            }
                            if exists|k: int| 0 <= k < seen@.len() && (#[trigger] seen@[k])@ == q {
                                let k = choose|k: int| 0 <= k < seen@.len() && (#[trigger] seen@[k])@ == q;
                                if k < old_seen.len() {
                                    assert(old_seen[k] == seen@[k]);
                                }
                            }
                            if prev.1.contains(q) && q != p@ {
                                let k = choose|k: int| 0 <= k < old_seen.len() && (#[trigger] old_seen[k])@ == q;
                                assert(seen@[k] == old_seen[k]);
                            }
                        }
                    }
                },
            }
        }
        i = i + 1;
    }
    assert(paths.take(units@.len() as int) =~= paths);
    r
}

/// Some unit among the first `n` of `order` has the path `p` (the empty path
/// standing for a unit without one).
pub open spec fn walked(units: Seq<SourceUnit>, order: Seq<int>, n: int, p: Seq<char>) -> bool {
    exists|k: int| 0 <= k < n && k < order.len() && #[trigger] unit_path(units[order[k]]) == p
}

impl AstVisitorData {
    /// Walks the source units at `order`, in that order.
    fn walk_units(&mut self, units: &Vec<SourceUnit>, order: &Vec<usize>, out: &mut Output) -> (r: Result<(), AnalysisError>)
        requires
            old(self).wf(),
            old(out).wf(),
            forall|k: int| 0 <= k < order@.len() ==> order@[k] < units@.len(),
        ensures
            final(self).wf(),
            final(out).wf(),
            old(out).extends(*final(out)),
            forall|p: Seq<char>|
                !walked(units@, index_values(order@), order@.len() as int, p) ==> #[trigger] final(out).report.entries_of(p)
                    == old(out).report.entries_of(p),
            walk_order(*old(self), *old(out), units, index_values(order@), *final(self), *final(out), r is Ok),
    {
        proof { Output::lemma_extends_refl(*out); }
        let ghost o0 = *out;
        let ghost d0 = *self;
        let ghost ord = index_values(order@);
        let mut k: usize = 0;
        assert(ord.subrange(0, 0) =~= Seq::<int>::empty());
        while k < order.len()
            invariant
                k <= order@.len(),
                ord == index_values(order@),
                forall|j: int| 0 <= j < order@.len() ==> order@[j] < units@.len(),
                self.wf(),
                out.wf(),
                old(out).extends(*out),
                forall|p: Seq<char>|
                    !walked(units@, ord, k as int, p) ==> #[trigger] out.report.entries_of(p) == old(out).report.entries_of(p),
                d0 == *old(self),
                o0 == *old(out),
                walk_order(d0, o0, units, ord.subrange(0, k as int), *self, *out, true),
            decreases order@.len() - k,
        {
            let ghost before = *out;
            let ghost dm = *self;
            let res = self.visit_source_unit(units, &units[order[k]], out);
            proof {
                lemma_point(*self, *out, res is Ok);
                lemma_point(dm, before, true);
                let p = ord.subrange(0, k + 1);
                assert(p.drop_last() =~= ord.subrange(0, k as int));
                assert(p.last() == order@[k as int] as int);
                assert(walk_order(d0, o0, units, ord.subrange(0, k as int), dm, before, true));
                assert(walk_order(d0, o0, units, p, *self, *out, res is Ok));
                if res is Err {
                    lemma_walk_order_stop(d0, o0, units, ord, k + 1, *self, *out);
                }
            }
            proof {
                let q = unit_path(units@[order@[k as int] as int]);
                assert(ord[k as int] == order@[k as int] as int);
                assert forall|p: Seq<char>| !walked(units@, ord, k + 1, p) implies #[trigger] out.report.entries_of(p)
                    == old(out).report.entries_of(p) by {
                    assert(p != q) by {
                        if p == q {
                            assert(unit_path(units@[ord[k as int]]) == p);
                        }
                    }
                    if walked(units@, ord, k as int, p) {
                        let j = choose|j: int| 0 <= j < k && j < ord.len() && #[trigger] unit_path(units@[ord[j]]) == p;
                        assert(unit_path(units@[ord[j]]) == p);
                    }
                }
                assert forall|p: Seq<char>| !walked(units@, ord, order@.len() as int, p) implies !walked(units@, ord, k + 1, p) by {
                    if walked(units@, ord, k + 1, p) {
                        let j = choose|j: int| 0 <= j < k + 1 && j < ord.len() && #[trigger] unit_path(units@[ord[j]]) == p;
                        assert(unit_path(units@[ord[j]]) == p);
                    }
                }
            }
            res?;
            k = k + 1;
        }
        assert(ord.subrange(0, order@.len() as int) =~= ord);
        Ok(())
    }

    /// Walks a project: its source units in order, skipping those of package
    /// dependencies (whose path starts with `@`) and any whose path was walked
    /// before.
    pub fn analyze_project(&mut self, units: &Vec<SourceUnit>, out: &mut Output) -> (r: Result<(), AnalysisError>)
        requires
            old(self).wf(),
            old(out).wf(),
        ensures
            final(self).wf(),
            final(out).wf(),
            old(out).extends(*final(out)),
            forall|p: Seq<char>|
                !walked(units@, project_walk(unit_paths(units@)).0, project_walk(unit_paths(units@)).0.len() as int, p)
                    ==> #[trigger] final(out).report.entries_of(p) == old(out).report.entries_of(p),
            walk_order(*old(self), *old(out), units, project_walk(unit_paths(units@)).0, *final(self), *final(out), r is Ok),
    {
        let order = units_to_analyze(units);
        let r = self.walk_units(units, &order, out);
        proof {
            let w = project_walk(unit_paths(units@)).0;
            assert(index_values(order@) =~= w);
        }
        r
    }
}

/// Walks source units in order, and ends the walk at the first one whose
/// path repeats one walked before.
pub fn visit_source_units(data: &mut AstVisitorData, units: &Vec<SourceUnit>, out: &mut Output) -> (r: Result<(), AnalysisError>)
    requires
        old(data).wf(),
        old(out).wf(),
    ensures
        final(data).wf(),
        final(out).wf(),
        old(out).extends(*final(out)),
        forall|p: Seq<char>|
            !walked(
                units@,
                walk_until_repeat(unit_paths(units@)).0,
                walk_until_repeat(unit_paths(units@)).0.len() as int,
                p,
            )
                ==> #[trigger] final(out).report.entries_of(p) == old(out).report.entries_of(p),
        walk_order(*old(data), *old(out), units, walk_until_repeat(unit_paths(units@)).0, *final(data), *final(out), r is Ok),
{
    let order = units_until_repeat(units);
    let r = data.walk_units(units, &order, out);
    proof {
        let w = walk_until_repeat(unit_paths(units@)).0;
        assert(index_values(order@) =~= w);
    }
    r
}

/// Running the analyses on a project files nothing under the path of a
/// package dependency (a path that starts with `@`): no unit the walk visits
/// has one.
pub proof fn lemma_no_findings_under_packages(units: Seq<SourceUnit>, p: Seq<char>)
    requires
        is_package_path(p),
    ensures
        !walked(units, project_walk(unit_paths(units)).0, project_walk(unit_paths(units)).0.len() as int, p),
{
    let paths = unit_paths(units);
    let w = project_walk(paths).0;
    lemma_project_walk_visits_each_path_once(paths);
    lemma_walk_facts(paths);
    if walked(units, w, w.len() as int, p) {
        let j = choose|j: int| 0 <= j < w.len() as int && j < w.len() && #[trigger] unit_path(units[w[j]]) == p;
        assert(unit_path(units[w[j]]) == p);
        assert(0 <= w[j] < paths.len());
        assert(paths[w[j]] matches Some(q) ==> !is_package_path(q));
        match units[w[j]].absolute_path {
            Some(a) => {
                assert(paths[w[j]] == Some(a@));
                lemma_normal_path_first(a@);
            },
            None => {},
        }
    }
}

/// `a` comes before `b` in the order of strings: at their first difference
/// `a` has the smaller character, or `a` is a proper prefix of `b`.
pub open spec fn text_lt(a: Seq<char>, b: Seq<char>) -> bool
    decreases a.len(),
{
    if b.len() == 0 {
        false
    } else if a.len() == 0 {
        true
    } else if a[0] != b[0] {
        a[0] < b[0]
    } else {
        text_lt(a.drop_first(), b.drop_first())
    }
}

proof fn lemma_text_lt_irreflexive(a: Seq<char>)
    ensures
        !text_lt(a, a),
    decreases a.len(),
{
    if a.len() > 0 {
        lemma_text_lt_irreflexive(a.drop_first());
    }
}

proof fn lemma_text_lt_total(a: Seq<char>, b: Seq<char>)
    ensures
        a == b || text_lt(a, b) || text_lt(b, a),
    decreases a.len(),
{
    if a.len() > 0 && b.len() > 0 && a[0] == b[0] {
        lemma_text_lt_total(a.drop_first(), b.drop_first());
        if a.drop_first() == b.drop_first() {
            assert(a =~= seq![a[0]] + a.drop_first());
            assert(b =~= seq![b[0]] + b.drop_first());
        }
    } else if a.len() == 0 && b.len() == 0 {
        assert(a =~= b);
    }
}

proof fn lemma_text_lt_transitive(a: Seq<char>, b: Seq<char>, c: Seq<char>)
    requires
        text_lt(a, b),
        text_lt(b, c),
    ensures
        text_lt(a, c),
    decreases a.len(),
{
    if a.len() > 0 && b.len() > 0 && c.len() > 0 && a[0] == b[0] && b[0] == c[0] {
        lemma_text_lt_transitive(a.drop_first(), b.drop_first(), c.drop_first());
    }
}

/// The path a source unit is sorted by: its path, or the empty path.
pub open spec fn sort_key(u: SourceUnit) -> Seq<char> {
    match u.absolute_path {
        Some(p) => p@,
        None => Seq::empty(),
    }
}

/// Unit `a` comes before unit `b` of `units`: by path, and by position
/// where the paths are the same.
pub open spec fn unit_before(units: Seq<SourceUnit>, a: int, b: int) -> bool {
    text_lt(sort_key(units[a]), sort_key(units[b])) || (sort_key(units[a]) == sort_key(units[b]) && a < b)
}

fn key_of(u: &SourceUnit) -> (r: &str)
    ensures
        r@ == sort_key(*u),
{
    match &u.absolute_path {
        Some(p) => p.as_str(),
        None => {
            proof {
                reveal_strlit("");
            }
            ""
        },
    }
}

fn str_lt(a: &str, b: &str) -> (r: bool)
    ensures
        r == text_lt(a@, b@),
{
    let n = a.unicode_len();
    let m = b.unicode_len();
    let mut i: usize = 0;
    assert(a@.subrange(0, n as int) =~= a@);
    assert(b@.subrange(0, m as int) =~= b@);
    while i < n && i < m && a.get_char(i) == b.get_char(i)
        invariant
            n == a@.len(),
            m == b@.len(),
            i <= n,
            i <= m,
            text_lt(a@, b@) == text_lt(a@.subrange(i as int, n as int), b@.subrange(i as int, m as int)),
        decreases n - i,
    {
        assert(a@.subrange(i as int, n as int).drop_first() =~= a@.subrange(i + 1, n as int));
        assert(b@.subrange(i as int, m as int).drop_first() =~= b@.subrange(i + 1, m as int));
        i = i + 1;
    }
    if i == m {
        return false;
    }
    if i == n {
        return true;
    }
    let ca = a.get_char(i);
    let cb = b.get_char(i);
    assert(a@.subrange(i as int, n as int)[0] == ca);
    assert(b@.subrange(i as int, m as int)[0] == cb);
    ca < cb
}

/// Indices as integers.
pub open spec fn index_values(r: Seq<usize>) -> Seq<int> {
    r.map_values(|x: usize| x as int)
}

/// `n` distinct indices below `n` are each of the indices below `n`.
proof fn lemma_distinct_indices_cover(s: Seq<int>, n: int)
    requires
        s.len() == n,
        forall|k: int| 0 <= k < n ==> 0 <= #[trigger] s[k] < n,
        forall|a: int, b: int| 0 <= a < b < n ==> #[trigger] s[a] != #[trigger] s[b],
    ensures
        forall|i: int| 0 <= i < n ==> s.contains(i),
{
    assert(s.no_duplicates()) by {
        assert forall|a: int, b: int| 0 <= a < s.len() && 0 <= b < s.len() && a != b implies s[a] != s[b] by {
            if a < b {
                assert(s[a] != s[b]);
            } else {
                assert(s[b] != s[a]);
            }
        }
    }
    s.unique_seq_to_set();
    vstd::set_lib::lemma_int_range(0, n);
    let full = vstd::set_lib::set_int_range(0, n);
    assert(s.to_set().subset_of(full));
    vstd::set_lib::lemma_len_subset(s.to_set(), full);
    vstd::set_lib::lemma_subset_equality(s.to_set(), full);
    assert forall|i: int| 0 <= i < n implies s.contains(i) by {
        assert(full.contains(i));
        assert(s.to_set().contains(i));
    }
}

/// The order in which a project's source units are analysed, by index:
/// sorted by path, units with the same path (or none) in their own order.
pub fn sorted_unit_order(units: &Vec<SourceUnit>) -> (r: Vec<usize>)
    ensures
        r@.len() == units@.len(),
        forall|k: int| 0 <= k < r@.len() ==> r@[k] < units@.len(),
        forall|a: int, b: int| 0 <= a < b < r@.len() ==> unit_before(units@, #[trigger] r@[a] as int, #[trigger] r@[b] as int),
        forall|i: int| 0 <= i < units@.len() ==> #[trigger] index_values(r@).contains(i),
{
    let n = units.len();
    let mut r: Vec<usize> = Vec::new();
    let mut i: usize = 0;
    while i < n
        invariant
            n == units@.len(),
            i <= n,
            r@.len() == i,
            forall|k: int| 0 <= k < r@.len() ==> r@[k] < i,
            forall|a: int, b: int| 0 <= a < b < r@.len() ==> unit_before(units@, #[trigger] r@[a] as int, #[trigger] r@[b] as int),
        decreases n - i,
    {
        let key = key_of(&units[i]);
        let mut pos: usize = r.len();
        while pos > 0 && str_lt(key, key_of(&units[r[pos - 1]]))
            invariant
                pos <= r@.len(),
                r@.len() == i,
                i < n,
                n == units@.len(),
                key@ == sort_key(units@[i as int]),
                forall|k: int| 0 <= k < r@.len() ==> r@[k] < i,
                forall|k: int| pos <= k < r@.len() ==> text_lt(sort_key(units@[i as int]), sort_key(units@[r@[k] as int])),
            decreases pos,
        {
            pos = pos - 1;
        }
        proof {
            if pos > 0 {
                let e = r@[pos - 1] as int;
                lemma_text_lt_total(sort_key(units@[i as int]), sort_key(units@[e]));
                assert(unit_before(units@, e, i as int));
            }
        }
        let ghost old_r = r@;
        r.insert(pos, i);
        proof {
            assert forall|a: int, b: int| 0 <= a < b < r@.len() implies unit_before(units@, #[trigger] r@[a] as int, #[trigger] r@[b] as int) by {
                let ii = i as int;
                let p = pos as int;
                if a < p && b < p {
                    assert(r@[a] == old_r[a] && r@[b] == old_r[b]);
                } else if a < p && b == p {
                    assert(r@[a] == old_r[a]);
                    let e = old_r[a] as int;
                    if a < p - 1 {
                        assert(unit_before(units@, old_r[a] as int, old_r[p - 1] as int));
                        let f = old_r[p - 1] as int;
                        assert(unit_before(units@, f, ii));
                        if text_lt(sort_key(units@[e]), sort_key(units@[f])) && text_lt(sort_key(units@[f]), sort_key(units@[ii])) {
                            lemma_text_lt_transitive(sort_key(units@[e]), sort_key(units@[f]), sort_key(units@[ii]));
                        }
                    }
                } else if a < p {
                    assert(r@[a] == old_r[a] && r@[b] == old_r[b - 1]);
                } else if a == p {
                    assert(r@[b] == old_r[b - 1]);
                } else {
                    assert(r@[a] == old_r[a - 1] && r@[b] == old_r[b - 1]);
                }
            }
            assert forall|k: int| 0 <= k < r@.len() implies r@[k] < i + 1 by {
                if k < pos {
                    assert(r@[k] == old_r[k]);
                } else if k > pos {
                    assert(r@[k] == old_r[k - 1]);
                }
            }
        }
        i = i + 1;
    }
    proof {
        let m = index_values(r@);
        assert forall|a: int, b: int| 0 <= a < b < n implies #[trigger] m[a] != #[trigger] m[b] by {
            assert(unit_before(units@, r@[a] as int, r@[b] as int));
            if m[a] == m[b] {
                lemma_text_lt_irreflexive(sort_key(units@[r@[a] as int]));
            }
        }
        lemma_distinct_indices_cover(m, n as int);
    }
    r
}

} // verus!
