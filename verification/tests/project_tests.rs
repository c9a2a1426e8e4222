use solast::ast::{ContractDefinition, ContractKind, NodeInfo, SourceUnit, SourceUnitNode};
use solast::project::{classify_arg, has_unit_with_path, keeps_unit, parse_output_format, path_ends_with, unit_defines_contract, Arg, OutputFormat};
use solast::text::ends_with;

fn unit(path: Option<&str>, contracts: &[&str]) -> SourceUnit {
    SourceUnit {
        id: 0,
        absolute_path: path.map(|p| p.to_string()),
        license: None,
        source: None,
        nodes: contracts
            .iter()
            .map(|c| {
                SourceUnitNode::ContractDefinition(ContractDefinition {
                    info: NodeInfo { id: 1, src: "0:0:0".to_string(), type_identifier: None, type_string: None },
                    name: c.to_string(),
                    kind: ContractKind::Contract,
                    is_abstract: None,
                    linearized_base_contracts: None,
                    nodes: vec![],
                })
            })
            .collect(),
    }
}

#[test]
fn output_formats_ignore_case() {
    assert_eq!(parse_output_format("json"), Some(OutputFormat::Json));
    assert_eq!(parse_output_format("JSON"), Some(OutputFormat::Json));
    assert_eq!(parse_output_format("PlainText"), Some(OutputFormat::PlainText));
    assert_eq!(parse_output_format("plain-text"), Some(OutputFormat::PlainText));
    assert_eq!(parse_output_format("plain_TEXT"), Some(OutputFormat::PlainText));
    assert_eq!(parse_output_format("yaml"), None);
    assert_eq!(parse_output_format(""), None);
}

#[test]
fn command_line_words() {
    assert!(matches!(classify_arg("--todo-list"), Arg::TodoList));
    assert!(matches!(classify_arg("--todo_list"), Arg::TodoList));
    assert!(matches!(classify_arg("--contract=Bank"), Arg::Contract(ref s) if s == "Bank"));
    assert!(matches!(classify_arg("--contract=contract=Bank"), Arg::Contract(ref s) if s == "Bank"));
    assert!(matches!(classify_arg("--contract-path=src/A.sol"), Arg::ContractPath(ref s) if s == "src/A.sol"));
    assert!(matches!(classify_arg("--contract_path=B.sol"), Arg::ContractPath(ref s) if s == "B.sol"));
    assert!(matches!(classify_arg("--output-format=json"), Arg::OutputFormat(ref s) if s == "json"));
    assert!(matches!(classify_arg("--output_format=x"), Arg::OutputFormat(ref s) if s == "x"));
    assert!(matches!(classify_arg("--assert_usage"), Arg::Analysis(ref s) if s == "assert_usage"));
    assert!(matches!(classify_arg("--nonsense"), Arg::Invalid(ref s) if s == "--nonsense"));
    assert!(matches!(classify_arg("my-project"), Arg::ProjectPath(ref s) if s == "my-project"));
    assert!(matches!(classify_arg("-x"), Arg::ProjectPath(_)));
}

#[test]
fn contract_filter() {
    let u = unit(Some("a.sol"), &["Bank", "Vault"]);
    assert!(unit_defines_contract(&u, "Vault"));
    assert!(!unit_defines_contract(&u, "Token"));
    assert!(keeps_unit(&u, &vec![]));
    assert!(keeps_unit(&u, &vec!["Token".to_string(), "Bank".to_string()]));
    assert!(!keeps_unit(&u, &vec!["Token".to_string()]));
}

#[test]
fn units_by_path() {
    let units = vec![unit(Some("a.sol"), &[]), unit(None, &[])];
    assert!(has_unit_with_path(&units, &Some("a.sol".to_string())));
    assert!(has_unit_with_path(&units, &None));
    assert!(!has_unit_with_path(&units, &Some("b.sol".to_string())));
    assert!(!has_unit_with_path(&vec![], &None));
}

#[test]
fn path_suffixes() {
    assert!(ends_with("hardhat/console.sol", "console.sol"));
    assert!(!ends_with("sol", "console.sol"));
    assert!(path_ends_with(&Some("node/hardhat/console.sol".to_string()), "hardhat/console.sol"));
    assert!(!path_ends_with(&None, "x"));
    assert!(path_ends_with(&None, ""));
}
