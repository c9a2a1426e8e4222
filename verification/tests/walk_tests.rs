use solast::analysis::state_variable_shadowing::StateVariableShadowingVisitor;
use solast::analysis::unused_return::UnusedReturnVisitor;
use solast::analysis::visitor::AstVisitorData;
use solast::analysis::{normalize_path, DefCtx, Output};
use solast::ast::{
    BinaryOperation, Block, BlockOrStatement, ContractDefinition, ContractDefinitionNode, ContractKind, Expression, FunctionCall,
    FunctionCallKind, FunctionDefinition, FunctionKind, Identifier, IfStatement, Literal, NodeInfo, SourceUnit,
    SourceUnitNode, StateMutability, Statement, StorageLocation, TypeName, VariableDeclaration, VariableDeclarationStatement,
    Visibility,
};
use solast::report::Report;

const SRC: &str = "contract T {\n    uint256 public total;\n    function totalSupply() public returns (uint256) { return total; }\n    function g(uint256 x) public {\n        uint256 total = 1;\n        t.totalSupply();\n        if (x > 1) { } else { x + 10000000; }\n    }\n}\n";

fn info(text: &str, id: i64, type_string: Option<&str>) -> NodeInfo {
    let start = SRC.find(text).expect("text in source");
    NodeInfo { id, src: format!("{}:{}:0", start, text.len()), type_identifier: None, type_string: type_string.map(|t| t.to_string()) }
}

fn variable(text: &str, name: &str, id: i64, state: bool) -> VariableDeclaration {
    VariableDeclaration {
        info: info(text, id, Some("uint256")),
        name: name.to_string(),
        visibility: if state { Visibility::Public } else { Visibility::Internal },
        constant: false,
        state_variable: state,
        storage_location: StorageLocation::Default,
        mutability: None,
        ty: Some(TypeName::ElementaryTypeName { name: "uint256".to_string() }),
        value: None,
    }
}

fn ident(text: &str, name: &str, id: i64, refers: i64) -> Expression {
    Expression::Identifier(Identifier { info: info(text, id, None), name: name.to_string(), referenced_declaration: refers, has_argument_types: false })
}

fn literal(text: &str, id: i64) -> Expression {
    Expression::Literal(Literal { info: info(text, id, None), value: Some(text.to_string()), hex_value: None })
}

fn total_supply_call() -> Statement {
    Statement::ExpressionStatement {
        expression: Expression::FunctionCall(FunctionCall {
            info: info("t.totalSupply()", 20, None),
            kind: FunctionCallKind::FunctionCall,
            expression: Box::new(ident("t.totalSupply", "totalSupply", 21, 3)),
            arguments: vec![],
        }),
    }
}

fn if_else() -> Statement {
    let sum = BinaryOperation {
        info: info("x + 10000000", 30, None),
        operator: "+".to_string(),
        left_expression: Box::new(ident("x + 10000000", "x", 31, 7)),
        right_expression: Box::new(literal("10000000", 32)),
    };
    Statement::IfStatement(IfStatement {
        info: info("if (x > 1) { } else { x + 10000000; }", 33, None),
        condition: Expression::BinaryOperation(BinaryOperation {
            info: info("x > 1", 34, None),
            operator: ">".to_string(),
            left_expression: Box::new(ident("x > 1", "x", 35, 7)),
            right_expression: Box::new(Expression::Literal(Literal { info: info("1) {", 36, None), value: Some("1".to_string()), hex_value: None })),
        }),
        true_body: BlockOrStatement::Block(Box::new(Block { info: info("{ }", 37, None), statements: vec![] })),
        false_body: Some(BlockOrStatement::Block(Box::new(Block {
            info: info("{ x + 10000000; }", 38, None),
            statements: vec![Statement::ExpressionStatement { expression: Expression::BinaryOperation(sum) }],
        }))),
    })
}

fn function(text: &str, name: &str, id: i64, params: Vec<VariableDeclaration>, returns: Vec<VariableDeclaration>, body: Vec<Statement>) -> FunctionDefinition {
    FunctionDefinition {
        info: info(text, id, None),
        name: name.to_string(),
        kind: FunctionKind::Function,
        visibility: Visibility::Public,
        state_mutability: StateMutability::NonPayable,
        parameters: params,
        return_parameters: returns,
        modifiers: vec![],
        is_virtual: None,
        overrides: None,
        body: Some(Block { info: info(text, id + 100, None), statements: body }),
    }
}

fn total_supply() -> FunctionDefinition {
    function("function totalSupply()", "totalSupply", 3, vec![], vec![variable("(uint256)", "", 4, false)], vec![])
}

fn function_g() -> FunctionDefinition {
    let local = Statement::VariableDeclarationStatement(VariableDeclarationStatement {
        info: info("uint256 total = 1;", 8, None),
        declarations: vec![Some(variable("uint256 total = 1", "total", 9, false))],
        initial_value: None,
    });
    function("function g(uint256 x)", "g", 5, vec![variable("uint256 x", "x", 7, false)], vec![], vec![local, total_supply_call(), if_else()])
}

fn contract() -> ContractDefinition {
    ContractDefinition {
        info: info("contract T", 1, None),
        name: "T".to_string(),
        kind: ContractKind::Contract,
        is_abstract: None,
        linearized_base_contracts: Some(vec![1]),
        nodes: vec![
            ContractDefinitionNode::VariableDeclaration(variable("uint256 public total", "total", 2, true)),
            ContractDefinitionNode::FunctionDefinition(total_supply()),
            ContractDefinitionNode::FunctionDefinition(function_g()),
        ],
    }
}

fn unit() -> SourceUnit {
    SourceUnit {
        id: 0,
        absolute_path: Some("T.sol".to_string()),
        license: Some("MIT".to_string()),
        source: Some(SRC.to_string()),
        nodes: vec![SourceUnitNode::ContractDefinition(contract())],
    }
}

fn entries(report: &Report, i: usize) -> Vec<(Option<usize>, String)> {
    report.file_entries(i).iter().map(|e| (e.line, e.text.clone())).collect()
}

#[test]
fn local_variable_shadowing_a_state_variable_is_printed() {
    let units = vec![unit()];
    let c = contract();
    let g = function_g();
    let node = ContractDefinitionNode::FunctionDefinition(function_g());
    let ctx = DefCtx { units: &units, unit: &units[0], contract: &c, node: &node };
    let mut out = Output::new();
    let mut v = StateVariableShadowingVisitor::new();
    v.visit_function_definition(&ctx, &g, &mut out);
    assert_eq!(out.printed.len(), 1);
    assert!(out.printed[0].contains("local variable 'total' which shadows the public uint256 T.total state variable"));
    let f = total_supply();
    let mut out = Output::new();
    v.visit_function_definition(&ctx, &f, &mut out);
    assert!(out.printed.is_empty());
}

#[test]
fn call_without_arguments_dropping_its_value_is_reported() {
    let units = vec![unit()];
    let c = contract();
    let node = ContractDefinitionNode::FunctionDefinition(function_g());
    let ctx = DefCtx { units: &units, unit: &units[0], contract: &c, node: &node };
    let mut out = Output::new();
    let mut v = UnusedReturnVisitor::new();
    assert!(v.visit_statement(&ctx, &total_supply_call(), &mut out).is_ok());
    assert_eq!(out.report.file_count(), 1);
    let es = entries(&out.report, 0);
    assert_eq!(es.len(), 1);
    assert_eq!(es[0].0, Some(6));
    assert!(es[0].1.contains("makes a call to the public `T.totalSupply` function, ignoring the returned value"));
}

#[test]
fn walk_reaches_the_right_operand_in_an_else_branch() {
    let units = vec![unit()];
    let mut data = AstVisitorData::new(&vec!["large_literals".to_string()]);
    let mut out = Output::new();
    assert!(data.analyze_project(&units, &mut out).is_ok());
    assert_eq!(out.report.file_count(), 1);
    let es = entries(&out.report, 0);
    assert_eq!(es.len(), 1);
    assert_eq!(es[0].0, Some(7));
    assert!(es[0].1.ends_with("contains a large literal, which may be difficult to read: `10000000`"));
}

#[test]
fn paths_are_filed_by_their_components() {
    assert_eq!(normalize_path("a//b.sol"), "a/b.sol");
    assert_eq!(normalize_path("a/./b.sol"), "a/b.sol");
    assert_eq!(normalize_path("a/b.sol/"), "a/b.sol");
    assert_eq!(normalize_path("./a.sol"), "./a.sol");
    assert_eq!(normalize_path("/x//y/./z"), "/x/y/z");
    assert_eq!(normalize_path("a/../b"), "a/../b");
    assert_eq!(normalize_path(""), "");
    assert_eq!(normalize_path("/"), "/");
}

#[test]
fn two_spellings_of_one_path_share_a_file() {
    let unit_at = |path: &str| SourceUnit { id: 0, absolute_path: Some(path.to_string()), license: None, source: Some(String::new()), nodes: vec![] };
    let units = vec![unit_at("src//A.sol"), unit_at("src/./A.sol")];
    let mut data = AstVisitorData::new(&vec!["no_spdx_identifier".to_string()]);
    let mut out = Output::new();
    assert!(data.analyze_project(&units, &mut out).is_ok());
    assert_eq!(out.report.file_count(), 1);
    assert_eq!(out.report.file_path(0), "src/A.sol");
    assert_eq!(entries(&out.report, 0).len(), 2);
}
