use solast::analysis::check_effects_interactions::CheckEffectsInteractionsVisitor;
use solast::ast::{Statement, VariableDeclarationStatement};
use solast::analysis::raw_address_transfer::RawAddressTransferVisitor;
use solast::analysis::unnecessary_comparisons::{is_unnecessary_comparison, UnnecessaryComparisonsVisitor};
use solast::analysis::visitor::AstVisitorData;
use solast::analysis::{DefCtx, Output};
use solast::ast::{
    BinaryOperation, Block, ContractDefinition, ContractDefinitionNode, ContractKind, Expression, FunctionCall, FunctionCallKind,
    FunctionDefinition, FunctionKind, Identifier, Literal, MemberAccess, ModifierDefinition, Mutability, NodeInfo, SourceUnit,
    SourceUnitNode, StateMutability, StorageLocation, TypeName, VariableDeclaration, Visibility,
};

const SRC: &str = "contract C {\n    uint256 public total;\n    uint256 public constant LIMIT = 5;\n    function f(uint8 x) public { x < 255; }\n}\n";

fn info(text: &str, type_string: Option<&str>) -> NodeInfo {
    let start = SRC.find(text).expect("text in source");
    NodeInfo { id: 0, src: format!("{}:{}:0", start, text.len()), type_identifier: None, type_string: type_string.map(|t| t.to_string()) }
}

fn with_id(mut i: NodeInfo, id: i64) -> NodeInfo {
    i.id = id;
    i
}

fn state_var(text: &str, name: &str, id: i64, mutability: Mutability, value: Option<Expression>) -> VariableDeclaration {
    VariableDeclaration {
        info: with_id(info(text, None), id),
        name: name.to_string(),
        visibility: Visibility::Public,
        constant: mutability == Mutability::Constant,
        state_variable: true,
        storage_location: StorageLocation::Default,
        mutability: Some(mutability),
        ty: Some(TypeName::ElementaryTypeName { name: "uint256".to_string() }),
        value,
    }
}

fn comparison() -> BinaryOperation {
    BinaryOperation {
        info: with_id(info("x < 255", None), 20),
        operator: "<".to_string(),
        left_expression: Box::new(Expression::Identifier(Identifier {
            info: with_id(info("x < 255", Some("uint8")), 21),
            name: "x".to_string(),
            referenced_declaration: 30,
            has_argument_types: false,
        })),
        right_expression: Box::new(Expression::Literal(Literal { info: with_id(info("255", None), 22), value: Some("255".to_string()), hex_value: None })),
    }
}

fn function_f() -> FunctionDefinition {
    FunctionDefinition {
        info: with_id(info("function f(uint8 x) public { x < 255; }", None), 10),
        name: "f".to_string(),
        kind: FunctionKind::Function,
        visibility: Visibility::Public,
        state_mutability: StateMutability::NonPayable,
        parameters: vec![],
        return_parameters: vec![],
        modifiers: vec![],
        is_virtual: None,
        overrides: None,
        body: Some(Block { info: with_id(info("{ x < 255; }", None), 11), statements: vec![] }),
    }
}

fn contract() -> ContractDefinition {
    ContractDefinition {
        info: with_id(info("contract C", None), 1),
        name: "C".to_string(),
        kind: ContractKind::Contract,
        is_abstract: None,
        linearized_base_contracts: Some(vec![1]),
        nodes: vec![
            ContractDefinitionNode::VariableDeclaration(state_var("uint256 public total", "total", 2, Mutability::Mutable, None)),
            ContractDefinitionNode::VariableDeclaration(state_var(
                "uint256 public constant LIMIT = 5",
                "LIMIT",
                3,
                Mutability::Constant,
                Some(Expression::Literal(Literal { info: info("5;", None), value: Some("5".to_string()), hex_value: None })),
            )),
            ContractDefinitionNode::FunctionDefinition(function_f()),
        ],
    }
}

fn unit() -> SourceUnit {
    SourceUnit {
        id: 0,
        absolute_path: Some("C.sol".to_string()),
        license: Some("MIT".to_string()),
        source: Some(SRC.to_string()),
        nodes: vec![SourceUnitNode::ContractDefinition(contract())],
    }
}

#[test]
fn unnecessary_comparison_predicate() {
    assert!(is_unnecessary_comparison(&comparison()));
    let mut other = comparison();
    other.operator = ">".to_string();
    assert!(!is_unnecessary_comparison(&other));
    let mut smaller = comparison();
    smaller.right_expression = Box::new(Expression::Literal(Literal { info: info("255", None), value: Some("254".to_string()), hex_value: None }));
    assert!(!is_unnecessary_comparison(&smaller));
}

#[test]
fn unnecessary_comparison_is_printed_with_its_text() {
    let units = vec![unit()];
    let c = contract();
    let node = ContractDefinitionNode::FunctionDefinition(function_f());
    let ctx = DefCtx { units: &units, unit: &units[0], contract: &c, node: &node };
    let mut out = Output::new();
    let mut v = UnnecessaryComparisonsVisitor::new();
    v.visit_binary_operation(&ctx, &comparison(), &mut out);
    assert_eq!(out.printed, vec!["\tThe public `f` function in the `C` contract contains a redundant comparison: x < 255".to_string()]);
    let modifier = ContractDefinitionNode::ModifierDefinition(ModifierDefinition {
        info: info("contract C", None),
        name: "guard".to_string(),
        visibility: Visibility::Internal,
        parameters: vec![],
        is_virtual: None,
        overrides: None,
        body: Block { info: info("{ x < 255; }", None), statements: vec![] },
    });
    let ctx = DefCtx { units: &units, unit: &units[0], contract: &c, node: &modifier };
    v.visit_binary_operation(&ctx, &comparison(), &mut out);
    assert_eq!(out.printed[1], "\tThe guard modifier in the `C` contract contains a redundant comparison: x < 255");
}

#[test]
fn raw_transfers_are_counted_per_function() {
    let units = vec![unit()];
    let c = contract();
    let f = function_f();
    let node = ContractDefinitionNode::FunctionDefinition(function_f());
    let ctx = DefCtx { units: &units, unit: &units[0], contract: &c, node: &node };
    let transfer = FunctionCall {
        info: info("x < 255", None),
        kind: FunctionCallKind::FunctionCall,
        expression: Box::new(Expression::MemberAccess(MemberAccess {
            info: info("x < 255", None),
            expression: Box::new(Expression::Identifier(Identifier {
                info: info("x", Some("address payable")),
                name: "to".to_string(),
                referenced_declaration: 40,
                has_argument_types: false,
            })),
            member_name: "transfer".to_string(),
            referenced_declaration: None,
            has_argument_types: false,
        })),
        arguments: vec![],
    };
    let mut v = RawAddressTransferVisitor::new();
    let mut out = Output::new();
    v.visit_function_definition(&f);
    v.leave_function_definition(&ctx, &f, &mut out);
    assert!(out.printed.is_empty());
    v.visit_function_call(&ctx, &transfer);
    v.leave_function_definition(&ctx, &f, &mut out);
    assert_eq!(out.printed, vec!["\tPublic C.f function performs a raw address transfer".to_string()]);
    v.visit_function_call(&ctx, &transfer);
    v.leave_function_definition(&ctx, &f, &mut out);
    assert_eq!(out.printed[1], "\tPublic C.f function performs raw address transfers");
}

#[test]
fn never_assigned_state_variable_can_be_immutable() {
    let units = vec![unit()];
    let mut data = AstVisitorData::new(&vec!["state_variable_mutability".to_string()]);
    let mut out = Output::new();
    assert!(data.analyze_project(&units, &mut out).is_ok());
    assert_eq!(out.report.file_count(), 1);
    let entries: Vec<(Option<usize>, String)> = out.report.file_entries(0).iter().map(|e| (e.line, e.text.clone())).collect();
    assert_eq!(entries, vec![(Some(2), "The public `C.total` uint256 state variable can be declared `immutable`".to_string())]);
}

#[test]
fn unreferenced_state_variable_is_printed() {
    let units = vec![unit()];
    let mut data = AstVisitorData::new(&vec!["unused_state_variables".to_string()]);
    let mut out = Output::new();
    assert!(data.analyze_project(&units, &mut out).is_ok());
    assert_eq!(out.report.file_count(), 0);
    assert_eq!(out.printed, vec!["\tL2: The public `C.total` uint256 state variable is never referenced".to_string()]);
}

#[test]
fn declaring_several_locals_from_state_is_warned() {
    let units = vec![unit()];
    let c = contract();
    let node = ContractDefinitionNode::FunctionDefinition(function_f());
    let ctx = DefCtx { units: &units, unit: &units[0], contract: &c, node: &node };
    let read_total = || {
        Expression::Identifier(Identifier { info: info("total", None), name: "total".to_string(), referenced_declaration: 2, has_argument_types: false })
    };
    let local = |id: i64| {
        let mut v = state_var("uint256 public total", "a", id, Mutability::Mutable, None);
        v.state_variable = false;
        v
    };
    let pair = Statement::VariableDeclarationStatement(VariableDeclarationStatement {
        info: info("x < 255", None),
        declarations: vec![Some(local(50)), Some(local(51))],
        initial_value: Some(read_total()),
    });
    let mut v = CheckEffectsInteractionsVisitor::new();
    let mut out = Output::new();
    v.visit_statement(&ctx, &pair, &mut out);
    assert_eq!(out.printed, vec!["\tWARNING: tuple or multiple assignments not handled: [2]".to_string()]);
    assert!(v.bindings.is_empty());
    let single = Statement::VariableDeclarationStatement(VariableDeclarationStatement {
        info: info("x < 255", None),
        declarations: vec![Some(local(52))],
        initial_value: Some(read_total()),
    });
    v.visit_statement(&ctx, &single, &mut out);
    assert_eq!(out.printed.len(), 1);
    assert_eq!(v.bindings, vec![(2, 52)]);
}
