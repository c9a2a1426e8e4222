use solast::analysis::visitor::{is_visitor_type, sorted_unit_order, units_to_analyze, units_until_repeat, visit_source_units, AstVisitorData};
use solast::analysis::Output;
use solast::ast::{
    Block, BinaryOperation, ContractDefinition, ContractDefinitionNode, ContractKind, Expression, FunctionCall, FunctionCallKind,
    FunctionDefinition, FunctionKind, Identifier, Literal, NodeInfo, PragmaDirective, SourceUnit, SourceUnitNode,
    StateMutability, Statement, Visibility,
};
use solast::report::Report;

fn info_at(source: &str, text: &str, id: i64) -> NodeInfo {
    let start = source.find(text).expect("text in source");
    NodeInfo { id, src: format!("{}:{}:0", start, text.len()), type_identifier: None, type_string: None }
}

fn bare_unit(path: Option<&str>, license: Option<&str>) -> SourceUnit {
    SourceUnit {
        id: 0,
        absolute_path: path.map(|p| p.to_string()),
        license: license.map(|l| l.to_string()),
        source: Some(String::new()),
        nodes: vec![],
    }
}

const BANK: &str = "pragma solidity ^0.8.0;\ncontract Bank {\n    constructor() internal {}\n    function f(uint x) public {\n        assert(x > 1);\n    }\n}\n";

fn bank_unit() -> SourceUnit {
    let src = BANK;
    let pragma = PragmaDirective {
        info: info_at(src, "pragma solidity ^0.8.0;", 1),
        literals: vec!["solidity".to_string(), "^".to_string(), "0.8".to_string(), ".0".to_string()],
    };
    let constructor = FunctionDefinition {
        info: info_at(src, "constructor() internal {}", 3),
        name: String::new(),
        kind: FunctionKind::Constructor,
        visibility: Visibility::Internal,
        state_mutability: StateMutability::NonPayable,
        parameters: vec![],
        return_parameters: vec![],
        modifiers: vec![],
        is_virtual: None,
        overrides: None,
        body: Some(Block { info: info_at(src, "{}", 4), statements: vec![] }),
    };
    let comparison = Expression::BinaryOperation(BinaryOperation {
        info: info_at(src, "x > 1", 8),
        operator: ">".to_string(),
        left_expression: Box::new(Expression::Identifier(Identifier {
            info: info_at(src, "x > 1", 9),
            name: "x".to_string(),
            referenced_declaration: 6,
            has_argument_types: false,
        })),
        right_expression: Box::new(Expression::Literal(Literal {
            info: info_at(src, "1)", 10),
            value: Some("1".to_string()),
            hex_value: None,
        })),
    });
    let call = Expression::FunctionCall(FunctionCall {
        info: info_at(src, "assert(x > 1)", 11),
        kind: FunctionCallKind::FunctionCall,
        expression: Box::new(Expression::Identifier(Identifier {
            info: info_at(src, "assert", 12),
            name: "assert".to_string(),
            referenced_declaration: -3,
            has_argument_types: false,
        })),
        arguments: vec![comparison],
    });
    let function = FunctionDefinition {
        info: info_at(src, "function f(uint x) public {", 5),
        name: "f".to_string(),
        kind: FunctionKind::Function,
        visibility: Visibility::Public,
        state_mutability: StateMutability::NonPayable,
        parameters: vec![],
        return_parameters: vec![],
        modifiers: vec![],
        is_virtual: None,
        overrides: None,
        body: Some(Block {
            info: info_at(src, "{\n        assert", 7),
            statements: vec![Statement::ExpressionStatement { expression: call }],
        }),
    };
    let contract = ContractDefinition {
        info: info_at(src, "contract Bank", 2),
        name: "Bank".to_string(),
        kind: ContractKind::Contract,
        is_abstract: Some(false),
        linearized_base_contracts: Some(vec![2]),
        nodes: vec![ContractDefinitionNode::FunctionDefinition(constructor), ContractDefinitionNode::FunctionDefinition(function)],
    };
    SourceUnit {
        id: 0,
        absolute_path: Some("contracts/Bank.sol".to_string()),
        license: None,
        source: Some(src.to_string()),
        nodes: vec![SourceUnitNode::PragmaDirective(pragma), SourceUnitNode::ContractDefinition(contract)],
    }
}

fn names(ns: &[&str]) -> Vec<String> {
    ns.iter().map(|n| n.to_string()).collect()
}

fn entries(report: &Report, i: usize) -> Vec<(Option<usize>, String)> {
    report.file_entries(i).iter().map(|e| (e.line, e.text.clone())).collect()
}

#[test]
fn visitor_type_names() {
    assert!(is_visitor_type("no_spdx_identifier"));
    assert!(is_visitor_type("node_modules_imports"));
    assert!(is_visitor_type("unused_state_variables"));
    assert!(is_visitor_type("array_assignment"));
    assert!(!is_visitor_type("todo-list"));
    assert!(!is_visitor_type("No_spdx_identifier"));
}

#[test]
fn bank_contract_findings() {
    let units = vec![bank_unit()];
    let mut data = AstVisitorData::new(&names(&["no_spdx_identifier", "floating_solidity_version", "abstract_contracts", "assert_usage"]));
    let mut out = Output::new();
    assert!(data.analyze_project(&units, &mut out).is_ok());
    out.report.sort_entries();
    assert_eq!(out.report.file_count(), 1);
    assert_eq!(out.report.file_path(0), "contracts/Bank.sol");
    assert_eq!(
        entries(&out.report, 0),
        vec![
            (None, "\tSPDX license identifier not provided in source file; Consider adding one before deployment".to_string()),
            (Some(1), "Floating solidity version: ^0.8.0; Consider locking before deployment".to_string()),
            (Some(3), "The internal constructor in the `Bank` contract is marked internal instead of marking `Bank` as abstract".to_string()),
            (Some(5), "The public `f` function in the `Bank` contract contains assert usage: `assert(x > 1)`".to_string()),
        ]
    );
}

#[test]
fn licensed_unit_has_no_spdx_finding() {
    let units = vec![bare_unit(Some("a.sol"), Some("MIT")), bare_unit(Some("b.sol"), None)];
    let mut data = AstVisitorData::new(&names(&["no_spdx_identifier"]));
    let mut out = Output::new();
    assert!(data.analyze_project(&units, &mut out).is_ok());
    assert_eq!(out.report.file_count(), 1);
    assert_eq!(out.report.file_path(0), "b.sol");
}

#[test]
fn units_to_analyze_skips_packages_and_repeats() {
    let units = vec![
        bare_unit(Some("a.sol"), None),
        bare_unit(Some("@openzeppelin/x.sol"), None),
        bare_unit(Some("a.sol"), None),
        bare_unit(None, None),
        bare_unit(Some("b.sol"), None),
        bare_unit(None, None),
    ];
    assert_eq!(units_to_analyze(&units), vec![0, 3, 4, 5]);
    assert_eq!(units_until_repeat(&units), vec![0, 1]);
}

#[test]
fn project_walk_reports_each_path_once() {
    let units = vec![bare_unit(Some("a.sol"), None), bare_unit(Some("a.sol"), None), bare_unit(Some("@p/b.sol"), None)];
    let mut data = AstVisitorData::new(&names(&["no_spdx_identifier"]));
    let mut out = Output::new();
    assert!(data.analyze_project(&units, &mut out).is_ok());
    assert_eq!(out.report.file_count(), 1);
    assert_eq!(entries(&out.report, 0).len(), 1);
}

#[test]
fn visit_source_units_stops_at_a_repeated_path() {
    let units = vec![bare_unit(Some("a.sol"), None), bare_unit(Some("b.sol"), None), bare_unit(Some("a.sol"), None), bare_unit(Some("c.sol"), None)];
    let mut data = AstVisitorData::new(&names(&["no_spdx_identifier"]));
    let mut out = Output::new();
    assert!(visit_source_units(&mut data, &units, &mut out).is_ok());
    assert_eq!(out.report.file_count(), 2);
    assert_eq!(out.report.file_path(1), "b.sol");
}

#[test]
fn sorted_unit_order_sorts_by_path_stably() {
    let units = vec![
        bare_unit(Some("c.sol"), None),
        bare_unit(None, Some("first")),
        bare_unit(Some("a.sol"), None),
        bare_unit(Some("ab.sol"), None),
        bare_unit(Some("B.sol"), None),
        bare_unit(None, Some("second")),
        bare_unit(Some("a.sol"), Some("later")),
    ];
    let order = sorted_unit_order(&units);
    assert_eq!(order, vec![1, 5, 4, 2, 6, 3, 0]);
    let mut expected: Vec<usize> = (0..units.len()).collect();
    expected.sort_by(|&l, &r| units[l].absolute_path.as_deref().unwrap_or("").cmp(units[r].absolute_path.as_deref().unwrap_or("")));
    assert_eq!(order, expected);
}
