use solast::analysis::floating_solidity_version::floating_version;
use solast::analysis::redundant_comparisons::redundant_comparison;
use solast::analysis::unnecessary_pragmas::pragma_groups;
use solast::ast::{BinaryOperation, Expression, Identifier, Literal, NodeInfo, PragmaDirective, SourceUnit, SourceUnitNode};

fn info(src: &str, type_string: Option<&str>) -> NodeInfo {
    NodeInfo { id: 1, src: src.to_string(), type_identifier: None, type_string: type_string.map(|t| t.to_string()) }
}

fn ident(type_string: &str) -> Expression {
    Expression::Identifier(Identifier {
        info: info("0:1:0", Some(type_string)),
        name: "x".to_string(),
        referenced_declaration: 5,
        has_argument_types: false,
    })
}

fn lit(value: &str, hex: Option<&str>) -> Expression {
    Expression::Literal(Literal {
        info: info("0:1:0", None),
        value: Some(value.to_string()),
        hex_value: hex.map(|h| h.to_string()),
    })
}

fn cmp(left: Expression, op: &str, right: Expression) -> BinaryOperation {
    BinaryOperation { info: info("0:5:0", None), operator: op.to_string(), left_expression: Box::new(left), right_expression: Box::new(right) }
}

fn pragma(src: &str, literals: &[&str]) -> SourceUnitNode {
    SourceUnitNode::PragmaDirective(PragmaDirective { info: info(src, None), literals: literals.iter().map(|l| l.to_string()).collect() })
}

#[test]
fn comparison_of_two_literals_is_redundant() {
    assert!(redundant_comparison(&cmp(lit("1", None), "==", lit("2", None))));
    assert!(!redundant_comparison(&cmp(lit("1", None), "+", lit("2", None))));
}

#[test]
fn unsigned_bounds_make_comparisons_redundant() {
    assert!(redundant_comparison(&cmp(ident("uint8"), ">", lit("255", None))));
    assert!(redundant_comparison(&cmp(ident("uint8"), "<", lit("255", None))));
    assert!(!redundant_comparison(&cmp(ident("uint8"), ">", lit("254", None))));
    assert!(redundant_comparison(&cmp(ident("uint8"), "<=", lit("256", None))));
    assert!(!redundant_comparison(&cmp(ident("uint8"), "<=", lit("255", None))));
    assert!(redundant_comparison(&cmp(ident("uint256"), ">=", lit("0", None))));
    assert!(!redundant_comparison(&cmp(ident("uint256"), ">=", lit("1", None))));
    assert!(redundant_comparison(&cmp(ident("uint"), ">", lit("0", Some("ffffffffffffffffffffffffffffffffffffffffffffffffffffffffffffffff")))));
    assert!(!redundant_comparison(&cmp(ident("uint"), ">", lit("0", Some("fffffffffffffffffffffffffffffffffffffffffffffffffffffffffffffffe")))));
    assert!(redundant_comparison(&cmp(ident("uint16"), ">", lit("0", Some("0xffff")))));
    assert!(!redundant_comparison(&cmp(ident("int8"), ">", lit("255", None))));
    assert!(!redundant_comparison(&cmp(ident("uint512"), ">", lit("1", None))));
    assert!(!redundant_comparison(&cmp(ident("uint8"), "==", lit("300", None))));
    assert!(!redundant_comparison(&cmp(lit("1", None), ">", ident("uint8"))));
}

#[test]
fn floating_versions() {
    let p = |ls: &[&str]| PragmaDirective { info: info("0:1:0", None), literals: ls.iter().map(|l| l.to_string()).collect() };
    assert_eq!(floating_version(&p(&["solidity", "^", "0.8", ".0"])), Some("^0.8.0".to_string()));
    assert_eq!(floating_version(&p(&["solidity", ">=", "0.6", ".0", "<", "0.9", ".0"])), Some(">=0.6.0 <0.9.0".to_string()));
    assert_eq!(floating_version(&p(&["solidity", "0.8", ".17"])), None);
    assert_eq!(floating_version(&p(&["abicoder", "^", "v2"])), None);
    assert_eq!(floating_version(&p(&[])), None);
}

#[test]
fn pragma_groups_close_at_repeated_kinds() {
    let src = "pragma solidity ^0.8.0;\npragma abicoder v2;\npragma solidity 0.7.6;\n";
    let unit = SourceUnit {
        id: 0,
        absolute_path: Some("p.sol".to_string()),
        license: None,
        source: Some(src.to_string()),
        nodes: vec![
            pragma("0:23:0", &["solidity", "^", "0.8", ".0"]),
            pragma("24:19:0", &["abicoder", "v2"]),
            pragma("44:22:0", &["solidity", "0.7", ".6"]),
        ],
    };
    let groups = pragma_groups(&unit).ok().expect("groups");
    assert_eq!(groups.len(), 2);
    assert_eq!(groups[0].line, Some(3));
    assert_eq!(groups[0].solidity, vec!["^", "0.8", ".0"]);
    assert_eq!(groups[0].abicoder, vec!["v2"]);
    assert_eq!(groups[1].line, None);
    assert_eq!(groups[1].solidity, vec!["0.7", ".6"]);
    assert!(groups[1].abicoder.is_empty());
}

#[test]
fn pragma_groups_fail_on_unreadable_range() {
    let unit = SourceUnit {
        id: 0,
        absolute_path: None,
        license: None,
        source: Some("x".to_string()),
        nodes: vec![pragma("0:1:0", &["solidity", "0.8"]), pragma("bad", &["solidity", "0.7"])],
    };
    assert!(pragma_groups(&unit).is_err());
}
