//! The library's model of a Solidity syntax tree, as produced by the Solidity
//! compiler's JSON AST output. Each node holds, as plain values, what the
//! analyses read.
use vstd::prelude::*;

verus! {

/// Identifier of a syntax tree node, as assigned by the compiler.
pub type NodeId = i64;

#[derive(Clone, Copy, Debug, PartialEq, Eq, Structural)]
pub enum Visibility {
    Public,
    Private,
    Internal,
    External,
}

#[derive(Clone, Copy, Debug, PartialEq, Eq, Structural)]
pub enum StateMutability {
    Pure,
    View,
    NonPayable,
    Payable,
}

#[derive(Clone, Copy, Debug, PartialEq, Eq, Structural)]
pub enum FunctionKind {
    Constructor,
    Function,
    Receive,
    Fallback,
    FreeFunction,
}

#[derive(Clone, Copy, Debug, PartialEq, Eq, Structural)]
pub enum ContractKind {
    Contract,
    Interface,
    Library,
}

#[derive(Clone, Copy, Debug, PartialEq, Eq, Structural)]
pub enum StorageLocation {
    Default,
    Memory,
    Storage,
    Calldata,
}

#[derive(Clone, Copy, Debug, PartialEq, Eq, Structural)]
pub enum Mutability {
    Mutable,
    Immutable,
    Constant,
}

#[derive(Clone, Copy, Debug, PartialEq, Eq, Structural)]
pub enum FunctionCallKind {
    FunctionCall,
    TypeConversion,
    StructConstructorCall,
}

/// What every node carries: its identifier, its source range
/// (`"start:length:file"`) and, for expressions, the type the compiler gave it.
#[derive(Debug)]
pub struct NodeInfo {
    pub id: NodeId,
    pub src: String,
    pub type_identifier: Option<String>,
    pub type_string: Option<String>,
}

#[derive(Debug)]
pub enum TypeName {
    ElementaryTypeName { name: String },
    UserDefinedTypeName { referenced_declaration: NodeId, name: String },
    /// An array type; `length` is the literal text of a fixed length.
    ArrayTypeName { base_type: Box<TypeName>, length: Option<String> },
    FunctionTypeName,
    Mapping { key_type: Box<TypeName>, value_type: Box<TypeName> },
    String(String),
}

#[derive(Debug)]
pub struct Literal {
    pub info: NodeInfo,
    pub value: Option<String>,
    pub hex_value: Option<String>,
}

#[derive(Debug)]
pub struct Identifier {
    pub info: NodeInfo,
    pub name: String,
    pub referenced_declaration: NodeId,
    pub has_argument_types: bool,
}

#[derive(Debug)]
pub struct UnaryOperation {
    pub info: NodeInfo,
    pub operator: String,
    pub prefix: bool,
    pub sub_expression: Box<Expression>,
}

#[derive(Debug)]
pub struct BinaryOperation {
    pub info: NodeInfo,
    pub operator: String,
    pub left_expression: Box<Expression>,
    pub right_expression: Box<Expression>,
}

#[derive(Debug)]
pub struct Conditional {
    pub info: NodeInfo,
    pub condition: Box<Expression>,
    pub true_expression: Box<Expression>,
    pub false_expression: Box<Expression>,
}

#[derive(Debug)]
pub struct Assignment {
    pub info: NodeInfo,
    pub operator: String,
    pub left_hand_side: Box<Expression>,
    pub right_hand_side: Box<Expression>,
}

#[derive(Debug)]
pub struct FunctionCall {
    pub info: NodeInfo,
    pub kind: FunctionCallKind,
    pub expression: Box<Expression>,
    pub arguments: Vec<Expression>,
}

#[derive(Debug)]
pub struct FunctionCallOptions {
    pub info: NodeInfo,
    pub expression: Box<Expression>,
    pub names: Vec<String>,
    pub options: Vec<Expression>,
}

#[derive(Debug)]
pub struct IndexAccess {
    pub info: NodeInfo,
    pub base_expression: Box<Expression>,
    pub index_expression: Option<Box<Expression>>,
}

#[derive(Debug)]
pub struct IndexRangeAccess {
    pub info: NodeInfo,
    pub base_expression: Box<Expression>,
    pub start_expression: Option<Box<Expression>>,
    pub end_expression: Option<Box<Expression>>,
}

#[derive(Debug)]
pub struct MemberAccess {
    pub info: NodeInfo,
    pub expression: Box<Expression>,
    pub member_name: String,
    pub referenced_declaration: Option<NodeId>,
    pub has_argument_types: bool,
}

#[derive(Debug)]
pub struct ElementaryTypeNameExpression {
    pub info: NodeInfo,
    pub ty: TypeName,
}

#[derive(Debug)]
pub struct TupleExpression {
    pub info: NodeInfo,
    pub components: Vec<Option<Expression>>,
}

#[derive(Debug)]
pub struct NewExpression {
    pub info: NodeInfo,
    pub ty: TypeName,
}

#[derive(Debug)]
pub enum Expression {
    Literal(Literal),
    Identifier(Identifier),
    UnaryOperation(UnaryOperation),
    BinaryOperation(BinaryOperation),
    Conditional(Conditional),
    Assignment(Assignment),
    FunctionCall(FunctionCall),
    FunctionCallOptions(FunctionCallOptions),
    IndexAccess(IndexAccess),
    IndexRangeAccess(IndexRangeAccess),
    MemberAccess(MemberAccess),
    ElementaryTypeNameExpression(ElementaryTypeNameExpression),
    TupleExpression(TupleExpression),
    NewExpression(NewExpression),
    UnhandledExpression { info: NodeInfo, node_type: String },
}

#[derive(Debug)]
pub struct VariableDeclaration {
    pub info: NodeInfo,
    pub name: String,
    pub visibility: Visibility,
    pub constant: bool,
    pub state_variable: bool,
    pub storage_location: StorageLocation,
    pub mutability: Option<Mutability>,
    pub ty: Option<TypeName>,
    pub value: Option<Expression>,
}

#[derive(Debug)]
pub enum YulExpression {
    YulLiteral { value: Option<String>, hex_value: Option<String> },
    YulIdentifier { name: String },
    YulFunctionCall { function_name: String, arguments: Vec<YulExpression> },
    UnhandledYulExpression { info: NodeInfo, node_type: String },
}

#[derive(Debug)]
pub struct YulBlock {
    pub statements: Vec<YulStatement>,
}

#[derive(Debug)]
pub struct YulCase {
    pub value: Option<YulExpression>,
    pub body: YulBlock,
}

#[derive(Debug)]
pub enum YulStatement {
    YulIf { condition: YulExpression, body: YulBlock },
    YulSwitch { expression: YulExpression, cases: Vec<YulCase> },
    YulAssignment { variable_names: Vec<String>, value: YulExpression },
    YulVariableDeclaration { variables: Vec<String>, value: Option<YulExpression> },
    YulExpressionStatement { expression: YulExpression },
    UnhandledYulStatement { info: NodeInfo, node_type: String },
}

#[derive(Debug)]
pub struct InlineAssembly {
    pub info: NodeInfo,
    pub ast: Option<YulBlock>,
}

#[derive(Debug)]
pub struct Block {
    pub info: NodeInfo,
    pub statements: Vec<Statement>,
}

#[derive(Debug)]
pub enum BlockOrStatement {
    Block(Box<Block>),
    Statement(Box<Statement>),
}

#[derive(Debug)]
pub struct VariableDeclarationStatement {
    pub info: NodeInfo,
    pub declarations: Vec<Option<VariableDeclaration>>,
    pub initial_value: Option<Expression>,
}

#[derive(Debug)]
pub struct IfStatement {
    pub info: NodeInfo,
    pub condition: Expression,
    pub true_body: BlockOrStatement,
    pub false_body: Option<BlockOrStatement>,
}

#[derive(Debug)]
pub struct ForStatement {
    pub info: NodeInfo,
    pub initialization_expression: Option<Box<Statement>>,
    pub condition: Option<Expression>,
    pub loop_expression: Option<Box<Statement>>,
    pub body: BlockOrStatement,
}

#[derive(Debug)]
pub struct WhileStatement {
    pub info: NodeInfo,
    pub condition: Expression,
    pub body: BlockOrStatement,
}

#[derive(Debug)]
pub struct TryCatchClause {
    pub block: Block,
}

#[derive(Debug)]
pub struct Return {
    pub info: NodeInfo,
    pub expression: Option<Expression>,
}

#[derive(Debug)]
pub enum Statement {
    VariableDeclarationStatement(VariableDeclarationStatement),
    IfStatement(IfStatement),
    ForStatement(ForStatement),
    WhileStatement(WhileStatement),
    EmitStatement { info: NodeInfo, event_call: Expression },
    TryStatement { info: NodeInfo, clauses: Vec<TryCatchClause> },
    RevertStatement { info: NodeInfo, error_call: Expression },
    UncheckedBlock(Block),
    Return(Return),
    ExpressionStatement { expression: Expression },
    InlineAssembly(InlineAssembly),
    UnhandledStatement { info: NodeInfo, node_type: String },
}

#[derive(Debug)]
pub struct ModifierInvocation {
    pub info: NodeInfo,
    pub modifier_name: String,
}

#[derive(Debug)]
pub struct FunctionDefinition {
    pub info: NodeInfo,
    pub name: String,
    pub kind: FunctionKind,
    pub visibility: Visibility,
    pub state_mutability: StateMutability,
    pub parameters: Vec<VariableDeclaration>,
    pub return_parameters: Vec<VariableDeclaration>,
    pub modifiers: Vec<ModifierInvocation>,
    pub is_virtual: Option<bool>,
    /// The contracts named by an `override` specifier, where there is one.
    pub overrides: Option<Vec<String>>,
    pub body: Option<Block>,
}

#[derive(Debug)]
pub struct ModifierDefinition {
    pub info: NodeInfo,
    pub name: String,
    pub visibility: Visibility,
    pub parameters: Vec<VariableDeclaration>,
    pub is_virtual: Option<bool>,
    /// The contracts named by an `override` specifier, where there is one.
    pub overrides: Option<Vec<String>>,
    pub body: Block,
}

#[derive(Debug)]
pub struct StructDefinition {
    pub info: NodeInfo,
    pub name: String,
    pub members: Vec<VariableDeclaration>,
}

#[derive(Debug)]
pub struct EnumDefinition {
    pub info: NodeInfo,
    pub name: String,
}

#[derive(Debug)]
pub struct UsingForDirective {
    pub info: NodeInfo,
    pub library_declaration: Option<NodeId>,
    pub ty: Option<TypeName>,
}

#[derive(Debug)]
pub enum ContractDefinitionNode {
    UsingForDirective(UsingForDirective),
    StructDefinition(StructDefinition),
    EnumDefinition(EnumDefinition),
    VariableDeclaration(VariableDeclaration),
    EventDefinition { info: NodeInfo, name: String },
    ErrorDefinition { info: NodeInfo, name: String },
    FunctionDefinition(FunctionDefinition),
    ModifierDefinition(ModifierDefinition),
}

#[derive(Debug)]
pub struct ContractDefinition {
    pub info: NodeInfo,
    pub name: String,
    pub kind: ContractKind,
    pub is_abstract: Option<bool>,
    pub linearized_base_contracts: Option<Vec<NodeId>>,
    pub nodes: Vec<ContractDefinitionNode>,
}

#[derive(Debug)]
pub struct PragmaDirective {
    pub info: NodeInfo,
    pub literals: Vec<String>,
}

#[derive(Debug)]
pub struct ImportDirective {
    pub info: NodeInfo,
    pub file: String,
    pub source_unit: NodeId,
}

#[derive(Debug)]
pub enum SourceUnitNode {
    PragmaDirective(PragmaDirective),
    ImportDirective(ImportDirective),
    ContractDefinition(ContractDefinition),
    StructDefinition(StructDefinition),
    EnumDefinition(EnumDefinition),
}

#[derive(Debug)]
pub struct SourceUnit {
    pub id: NodeId,
    pub absolute_path: Option<String>,
    pub license: Option<String>,
    pub source: Option<String>,
    pub nodes: Vec<SourceUnitNode>,
}

} // verus!
