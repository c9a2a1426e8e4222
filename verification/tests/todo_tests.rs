use solast::ast::{
    Block, ContractDefinition, ContractDefinitionNode, ContractKind, EnumDefinition, FunctionDefinition, FunctionKind,
    ModifierDefinition, ModifierInvocation, NodeInfo, SourceUnit, SourceUnitNode, StateMutability, StorageLocation,
    StructDefinition, VariableDeclaration, Visibility,
};
use solast::todo_list::{contract_checklist, todo_list, unit_checklist};

const SRC: &str = "contract Vault { enum State { Open } struct Pos { uint a; } uint256 public total; modifier only(address who) { _; } function deposit(uint amount, address to) external payable onlyOwner returns (bool ok) { } function ping() public view virtual override(A, B) { } function todo() external; }";

fn info(text: &str) -> NodeInfo {
    let start = SRC.find(text).expect("text in source");
    NodeInfo { id: 1, src: format!("{}:{}:0", start, text.len()), type_identifier: None, type_string: None }
}

fn var(text: &str, name: &str) -> VariableDeclaration {
    VariableDeclaration {
        info: info(text),
        name: name.to_string(),
        visibility: Visibility::Internal,
        constant: false,
        state_variable: false,
        storage_location: StorageLocation::Default,
        mutability: None,
        ty: None,
        value: None,
    }
}

fn function(name: &str, vis: Visibility, sm: StateMutability, params: Vec<VariableDeclaration>, returns: Vec<VariableDeclaration>, modifiers: Vec<ModifierInvocation>, is_virtual: Option<bool>, overrides: Option<Vec<String>>, body: bool) -> ContractDefinitionNode {
    ContractDefinitionNode::FunctionDefinition(FunctionDefinition {
        info: info("function"),
        name: name.to_string(),
        kind: FunctionKind::Function,
        visibility: vis,
        state_mutability: sm,
        parameters: params,
        return_parameters: returns,
        modifiers,
        is_virtual,
        overrides,
        body: if body { Some(Block { info: info("{ }"), statements: vec![] }) } else { None },
    })
}

fn vault(kind: ContractKind, is_abstract: Option<bool>) -> ContractDefinition {
    ContractDefinition {
        info: info("contract Vault"),
        name: "Vault".to_string(),
        kind,
        is_abstract,
        linearized_base_contracts: None,
        nodes: vec![
            ContractDefinitionNode::EnumDefinition(EnumDefinition { info: info("enum State"), name: "State".to_string() }),
            ContractDefinitionNode::StructDefinition(StructDefinition { info: info("struct Pos"), name: "Pos".to_string(), members: vec![] }),
            ContractDefinitionNode::VariableDeclaration(var("uint256 public total", "total")),
            ContractDefinitionNode::ModifierDefinition(ModifierDefinition {
                info: info("modifier only"),
                name: "only".to_string(),
                visibility: Visibility::Internal,
                parameters: vec![var("address who", "who")],
                is_virtual: None,
                overrides: None,
                body: Block { info: info("{ _; }"), statements: vec![] },
            }),
            function(
                "deposit",
                Visibility::External,
                StateMutability::Payable,
                vec![var("uint amount", "amount"), var("address to", "to")],
                vec![var("bool ok", "ok")],
                vec![ModifierInvocation { info: info("onlyOwner"), modifier_name: "onlyOwner".to_string() }],
                None,
                None,
                true,
            ),
            function("ping", Visibility::Public, StateMutability::View, vec![], vec![], vec![], Some(true), Some(vec!["A".to_string(), "B".to_string()]), true),
            function("todo", Visibility::External, StateMutability::NonPayable, vec![], vec![], vec![], None, None, false),
        ],
    }
}

fn unit(contracts: Vec<ContractDefinition>) -> SourceUnit {
    SourceUnit {
        id: 0,
        absolute_path: Some("Vault.sol".to_string()),
        license: None,
        source: Some(SRC.to_string()),
        nodes: contracts.into_iter().map(SourceUnitNode::ContractDefinition).collect(),
    }
}

#[test]
fn contract_checklist_lists_each_section() {
    let u = unit(vec![]);
    let lines = contract_checklist(&u, &vault(ContractKind::Contract, Some(true)));
    assert_eq!(
        lines,
        vec![
            "### `abstract contract Vault`:",
            "",
            "#### Enums:",
            "- [ ] `enum State`",
            "",
            "#### Structs:",
            "- [ ] `struct Pos`",
            "",
            "#### Variables:",
            "- [ ] `uint256 public total`",
            "",
            "#### Modifiers:",
            "- [ ] `modifier only(address who)`",
            "",
            "#### Functions:",
            "- [ ] `function deposit(uint amount, address to) external payable onlyOwner returns (bool ok)`",
            "- [ ] `function ping() public view virtual override(A, B)`",
            "",
        ]
    );
}

#[test]
fn interfaces_are_left_out() {
    let u = unit(vec![]);
    assert!(contract_checklist(&u, &vault(ContractKind::Interface, None)).is_empty());
}

#[test]
fn unit_checklist_ends_with_a_rule() {
    let u = unit(vec![vault(ContractKind::Interface, None)]);
    assert_eq!(unit_checklist(&u), vec!["---", ""]);
    let units = vec![unit(vec![]), unit(vec![vault(ContractKind::Library, None)])];
    let lines = todo_list(&units);
    assert_eq!(lines[0], "---");
    assert_eq!(lines[1], "");
    assert_eq!(lines[2], "### `library Vault`:");
    assert_eq!(lines[lines.len() - 2], "---");
    assert_eq!(lines.len(), 2 + 18 + 2);
}

#[test]
fn modifier_with_other_visibility_repeats_its_parameters() {
    let c = ContractDefinition {
        info: info("contract Vault"),
        name: "M".to_string(),
        kind: ContractKind::Contract,
        is_abstract: None,
        linearized_base_contracts: None,
        nodes: vec![ContractDefinitionNode::ModifierDefinition(ModifierDefinition {
            info: info("modifier only"),
            name: "only".to_string(),
            visibility: Visibility::Public,
            parameters: vec![var("address who", "who")],
            is_virtual: Some(true),
            overrides: Some(vec![]),
            body: Block { info: info("{ _; }"), statements: vec![] },
        })],
    };
    let lines = contract_checklist(&unit(vec![]), &c);
    assert_eq!(lines[3], "- [ ] `modifier only(address who)(address who) public virtual override`");
}
