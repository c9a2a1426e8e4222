use solast::ast::{ContractKind, FunctionKind, NodeInfo, SourceUnit, TypeName, Visibility};
use solast::render::{
    contract_kind_str, debug_visibility, function_kind_str, i64_to_string, node_text, qualify, source_line, text_before_colon,
    type_name_string, u64_to_string, usize_to_string, visibility_str, AnalysisError,
};

fn unit(source: Option<&str>) -> SourceUnit {
    SourceUnit {
        id: 1,
        absolute_path: Some("contracts/A.sol".to_string()),
        license: None,
        source: source.map(|s| s.to_string()),
        nodes: vec![],
    }
}

#[allow(dead_code)]
fn info(src: &str) -> NodeInfo {
    NodeInfo { id: 0, src: src.to_string(), type_identifier: None, type_string: None }
}

#[test]
fn numbers_to_text() {
    assert_eq!(u64_to_string(0), "0");
    assert_eq!(u64_to_string(18446744073709551615), "18446744073709551615");
    assert_eq!(usize_to_string(42), "42");
    assert_eq!(i64_to_string(-17), "-17");
    assert_eq!(i64_to_string(i64::MIN), "-9223372036854775808");
    assert_eq!(i64_to_string(5), "5");
}

#[test]
fn text_before_colon_stops_at_the_first_colon() {
    assert_eq!(text_before_colon("12:34:0"), "12");
    assert_eq!(text_before_colon("nocolon"), "nocolon");
    assert_eq!(text_before_colon(":x"), "");
}

#[test]
fn source_line_counts_newlines_before_start() {
    let u = unit(Some("line one\nline two\nline three\n"));
    assert_eq!(source_line(&u, "0:4:0").ok(), Some(1));
    assert_eq!(source_line(&u, "9:3:0").ok(), Some(2));
    assert_eq!(source_line(&u, "18:1:0").ok(), Some(3));
    assert!(matches!(source_line(&u, "x:1:0"), Err(AnalysisError::InvalidSourceRange)));
    assert!(matches!(source_line(&u, "1000:1:0"), Err(AnalysisError::InvalidSourceRange)));
    assert!(matches!(source_line(&unit(None), "0:1:0"), Err(AnalysisError::MissingSource)));
}

#[test]
fn node_text_is_the_source_range() {
    let u = unit(Some("contract A { uint x; }"));
    assert_eq!(node_text(&u, "13:6:0"), "uint x");
    assert_eq!(node_text(&u, "0:8:0"), "contract");
    assert_eq!(node_text(&u, "20:9:0"), "");
    assert_eq!(node_text(&u, "0"), "");
    assert_eq!(node_text(&unit(None), "0:1:0"), "");
}

#[test]
fn names_of_kinds() {
    assert_eq!(visibility_str(Visibility::Public), "public");
    assert_eq!(visibility_str(Visibility::External), "external");
    assert_eq!(debug_visibility(Visibility::Internal), "Internal");
    assert_eq!(function_kind_str(FunctionKind::Function), "function");
    assert_eq!(function_kind_str(FunctionKind::Receive), "receive");
    assert_eq!(contract_kind_str(ContractKind::Library), "library");
    assert_eq!(contract_kind_str(ContractKind::Interface), "interface");
}

#[test]
fn qualify_joins_with_a_dot() {
    assert_eq!(qualify(&"Bank".to_string(), &"withdraw".to_string()), "Bank.withdraw");
}

#[test]
fn type_names_as_text() {
    let m = TypeName::Mapping {
        key_type: Box::new(TypeName::ElementaryTypeName { name: "address".to_string() }),
        value_type: Box::new(TypeName::ArrayTypeName {
            base_type: Box::new(TypeName::ElementaryTypeName { name: "uint256".to_string() }),
            length: Some("3".to_string()),
        }),
    };
    assert_eq!(type_name_string(&m), "mapping(address => uint256[3])");
    let dynamic = TypeName::ArrayTypeName {
        base_type: Box::new(TypeName::UserDefinedTypeName { referenced_declaration: 4, name: "Pos".to_string() }),
        length: None,
    };
    assert_eq!(type_name_string(&dynamic), "Pos[]");
}
