use solast::analysis::unchecked_erc20_transfer::UncheckedERC20TransferVisitor;
use solast::analysis::visitor::AstVisitorData;
use solast::analysis::{DefCtx, Output};
use solast::ast::{
    BinaryOperation, Block, BlockOrStatement, ContractDefinition, ContractDefinitionNode, ContractKind, Expression, FunctionCall,
    FunctionCallKind, FunctionDefinition, FunctionKind, Identifier, IfStatement, ImportDirective, Literal, MemberAccess,
    Mutability, NodeInfo, SourceUnit, SourceUnitNode, StateMutability, StorageLocation, TypeName, VariableDeclaration,
    Visibility,
};

const SRC: &str = "contract ERC20 {\n    function transfer(address to, uint256 amount) public returns (bool) {}\n}\ncontract W {\n    uint256 public fee = 3;\n    function pay(uint256 amount) public {\n        if (amount > 0) {\n            {\n                token.transfer(to, amount);\n            }\n        }\n    }\n}\n";

fn info(text: &str, id: i64) -> NodeInfo {
    let start = SRC.find(text).expect("text in source");
    NodeInfo { id, src: format!("{}:{}:0", start, text.len()), type_identifier: None, type_string: Some("uint256".to_string()) }
}

fn var(text: &str, name: &str, id: i64, state: bool, value: Option<Expression>) -> VariableDeclaration {
    VariableDeclaration {
        info: info(text, id),
        name: name.to_string(),
        visibility: if state { Visibility::Public } else { Visibility::Internal },
        constant: false,
        state_variable: state,
        storage_location: StorageLocation::Default,
        mutability: Some(Mutability::Mutable),
        ty: Some(TypeName::ElementaryTypeName { name: "uint256".to_string() }),
        value,
    }
}

fn ident(text: &str, name: &str, id: i64, refers: i64) -> Expression {
    Expression::Identifier(Identifier { info: info(text, id), name: name.to_string(), referenced_declaration: refers, has_argument_types: false })
}

fn function(text: &str, name: &str, id: i64, params: Vec<VariableDeclaration>, body: Vec<solast::ast::Statement>) -> FunctionDefinition {
    FunctionDefinition {
        info: info(text, id),
        name: name.to_string(),
        kind: FunctionKind::Function,
        visibility: Visibility::Public,
        state_mutability: StateMutability::NonPayable,
        parameters: params,
        return_parameters: vec![],
        modifiers: vec![],
        is_virtual: None,
        overrides: None,
        body: Some(Block { info: info(text, id + 100), statements: body }),
    }
}

fn transfer_call() -> FunctionCall {
    FunctionCall {
        info: info("token.transfer(to, amount)", 30),
        kind: FunctionCallKind::FunctionCall,
        expression: Box::new(Expression::MemberAccess(MemberAccess {
            info: info("token.transfer", 31),
            expression: Box::new(ident("token", "token", 32, 99)),
            member_name: "transfer".to_string(),
            referenced_declaration: Some(2),
            has_argument_types: false,
        })),
        arguments: vec![ident("to, amount", "to", 33, 98), ident("amount);", "amount", 34, 13)],
    }
}

fn amount_checked() -> IfStatement {
    IfStatement {
        info: info("if (amount > 0)", 40),
        condition: Expression::BinaryOperation(BinaryOperation {
            info: info("amount > 0", 41),
            operator: ">".to_string(),
            left_expression: Box::new(ident("amount > 0", "amount", 42, 13)),
            right_expression: Box::new(Expression::Literal(Literal { info: info("0)", 43), value: Some("0".to_string()), hex_value: None })),
        }),
        true_body: BlockOrStatement::Block(Box::new(Block { info: info("{\n            {", 20), statements: vec![] })),
        false_body: None,
    }
}

fn pay() -> FunctionDefinition {
    function("function pay(uint256 amount)", "pay", 12, vec![var("uint256 amount) public {", "amount", 13, false, None)], vec![])
}

fn erc20() -> ContractDefinition {
    ContractDefinition {
        info: info("contract ERC20", 1),
        name: "ERC20".to_string(),
        kind: ContractKind::Contract,
        is_abstract: None,
        linearized_base_contracts: Some(vec![1]),
        nodes: vec![ContractDefinitionNode::FunctionDefinition(function("function transfer(", "transfer", 2, vec![], vec![]))],
    }
}

fn wallet() -> ContractDefinition {
    ContractDefinition {
        info: info("contract W", 10),
        name: "W".to_string(),
        kind: ContractKind::Contract,
        is_abstract: None,
        linearized_base_contracts: Some(vec![10]),
        nodes: vec![
            ContractDefinitionNode::VariableDeclaration(var(
                "uint256 public fee = 3",
                "fee",
                11,
                true,
                Some(Expression::Literal(Literal { info: info("3;", 14), value: Some("3".to_string()), hex_value: None })),
            )),
            ContractDefinitionNode::FunctionDefinition(pay()),
        ],
    }
}

fn unit() -> SourceUnit {
    SourceUnit {
        id: 0,
        absolute_path: Some("W.sol".to_string()),
        license: Some("MIT".to_string()),
        source: Some(SRC.to_string()),
        nodes: vec![SourceUnitNode::ContractDefinition(erc20()), SourceUnitNode::ContractDefinition(wallet())],
    }
}

fn transfer_findings(checked: bool) -> Vec<String> {
    let units = vec![unit()];
    let c = wallet();
    let f = pay();
    let node = ContractDefinitionNode::FunctionDefinition(pay());
    let ctx = DefCtx { units: &units, unit: &units[0], contract: &c, node: &node };
    let mut v = UncheckedERC20TransferVisitor::new();
    v.visit_function_definition(&f);
    if checked {
        v.visit_if_statement(&amount_checked());
    }
    v.visit_function_call(&ctx, &vec![20, 21], &transfer_call());
    let mut out = Output::new();
    assert!(v.leave_function_definition(&ctx, &f, &mut out).is_ok());
    out.printed
}

#[test]
fn transfer_checked_in_an_outer_block_is_not_counted() {
    assert!(transfer_findings(true).is_empty());
}

#[test]
fn unchecked_transfer_counts_once_however_deeply_nested() {
    let printed = transfer_findings(false);
    assert_eq!(printed.len(), 1);
    assert!(printed[0].ends_with("makes an ERC-20 transfer without checking the amount, which can revert if zero"));
}

#[test]
fn state_variable_with_a_value_can_be_constant() {
    let units = vec![unit()];
    let mut data = AstVisitorData::new(&vec!["state_variable_mutability".to_string()]);
    let mut out = Output::new();
    assert!(data.analyze_project(&units, &mut out).is_ok());
    assert_eq!(out.report.file_count(), 1);
    let entries: Vec<(Option<usize>, String)> = out.report.file_entries(0).iter().map(|e| (e.line, e.text.clone())).collect();
    assert_eq!(entries, vec![(Some(5), "The public `W.fee` uint256 state variable can be declared `constant`".to_string())]);
}

const IMPORTS: &str = "import \"a.sol\";\nimport \"a.sol\";\nimport \"a.sol\";\n";

#[test]
fn repeated_import_is_reported_once() {
    let import_at = |line: usize, id: i64| {
        SourceUnitNode::ImportDirective(ImportDirective {
            info: NodeInfo { id, src: format!("{}:15:0", line * 16), type_identifier: None, type_string: None },
            file: "a.sol".to_string(),
            source_unit: 7,
        })
    };
    let units = vec![SourceUnit {
        id: 5,
        absolute_path: Some("B.sol".to_string()),
        license: Some("MIT".to_string()),
        source: Some(IMPORTS.to_string()),
        nodes: vec![import_at(0, 1), import_at(1, 2), import_at(2, 3)],
    }];
    let mut data = AstVisitorData::new(&vec!["redundant_imports".to_string()]);
    let mut out = Output::new();
    assert!(data.analyze_project(&units, &mut out).is_ok());
    assert_eq!(out.report.file_count(), 1);
    let entries: Vec<(Option<usize>, String)> = out.report.file_entries(0).iter().map(|e| (e.line, e.text.clone())).collect();
    assert_eq!(entries, vec![(Some(2), "Redundant import specified: `a.sol`".to_string())]);
}
