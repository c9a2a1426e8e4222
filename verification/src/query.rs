//! Structural queries over the syntax tree model: what an expression
//! contains and refers to, and where a declaration is found among the
//! source units.
use vstd::prelude::*;
use crate::ast::{
    StateMutability, Visibility, ContractDefinition, ContractDefinitionNode, Expression, FunctionDefinition, NodeId, NodeInfo,
    SourceUnit, SourceUnitNode, TypeName, VariableDeclaration, Statement, BlockOrStatement, TryCatchClause, Block, Return, IfStatement, ForStatement, WhileStatement,
};

verus! {

/// Whether `e` or any expression inside it is an operation (unary, binary or
/// assignment) with the operator `op`.
pub open spec fn contains_op(e: Expression, op: Seq<char>) -> bool
    decreases e,
{
    match e {
        Expression::UnaryOperation(u) => u.operator@ == op || contains_op(*u.sub_expression, op),
        Expression::BinaryOperation(b) => b.operator@ == op || contains_op(*b.left_expression, op)
            || contains_op(*b.right_expression, op),
        Expression::Assignment(a) => a.operator@ == op || contains_op(*a.left_hand_side, op)
            || contains_op(*a.right_hand_side, op),
        Expression::Conditional(c) => contains_op(*c.condition, op) || contains_op(
            *c.true_expression,
            op,
        ) || contains_op(*c.false_expression, op),
        Expression::FunctionCall(f) => contains_op(*f.expression, op) || contains_op_list(
            f.arguments@,
            op,
        ),
        _ => false,
    }
}

pub open spec fn contains_op_list(es: Seq<Expression>, op: Seq<char>) -> bool
    decreases es,
{
    if es.len() == 0 {
        false
    } else {
        contains_op_list(es.subrange(0, es.len() - 1), op) || contains_op(es[es.len() - 1], op)
    }
}

/// The declarations an expression refers to, in source order: the declaration
/// of each identifier and of each member access that has one.
pub open spec fn refs(e: Expression) -> Seq<NodeId>
    decreases e,
{
    match e {
        Expression::Identifier(i) => seq![i.referenced_declaration],
        Expression::MemberAccess(m) => refs(*m.expression) + match m.referenced_declaration {
            Some(id) => seq![id],
            None => Seq::empty(),
        },
        Expression::IndexAccess(a) => refs(*a.base_expression) + match a.index_expression {
            Some(x) => refs(*x),
            None => Seq::empty(),
        },
        Expression::IndexRangeAccess(a) => refs(*a.base_expression) + match a.start_expression {
            Some(x) => refs(*x),
            None => Seq::empty(),
        } + match a.end_expression {
            Some(x) => refs(*x),
            None => Seq::empty(),
        },
        Expression::FunctionCall(f) => refs(*f.expression) + refs_list(f.arguments@),
        Expression::FunctionCallOptions(f) => refs(*f.expression) + refs_list(f.options@),
        Expression::UnaryOperation(u) => refs(*u.sub_expression),
        Expression::BinaryOperation(b) => refs(*b.left_expression) + refs(*b.right_expression),
        Expression::Conditional(c) => refs(*c.condition) + refs(*c.true_expression) + refs(
            *c.false_expression,
        ),
        Expression::Assignment(a) => refs(*a.left_hand_side) + refs(*a.right_hand_side),
        Expression::TupleExpression(t) => refs_opt_list(t.components@),
        _ => Seq::empty(),
    }
}

pub open spec fn refs_list(es: Seq<Expression>) -> Seq<NodeId>
    decreases es,
{
    if es.len() == 0 {
        Seq::empty()
    } else {
        refs_list(es.subrange(0, es.len() - 1)) + refs(es[es.len() - 1])
    }
}

pub open spec fn refs_opt_list(es: Seq<Option<Expression>>) -> Seq<NodeId>
    decreases es,
{
    if es.len() == 0 {
        Seq::empty()
    } else {
        refs_opt_list(es.subrange(0, es.len() - 1)) + match es[es.len() - 1] {
            Some(x) => refs(x),
            None => Seq::empty(),
        }
    }
}

/// The node information of an expression.
pub open spec fn info_of(e: Expression) -> NodeInfo {
    match e {
        Expression::Literal(x) => x.info,
        Expression::Identifier(x) => x.info,
        Expression::UnaryOperation(x) => x.info,
        Expression::BinaryOperation(x) => x.info,
        Expression::Conditional(x) => x.info,
        Expression::Assignment(x) => x.info,
        Expression::FunctionCall(x) => x.info,
        Expression::FunctionCallOptions(x) => x.info,
        Expression::IndexAccess(x) => x.info,
        Expression::IndexRangeAccess(x) => x.info,
        Expression::MemberAccess(x) => x.info,
        Expression::ElementaryTypeNameExpression(x) => x.info,
        Expression::TupleExpression(x) => x.info,
        Expression::NewExpression(x) => x.info,
        Expression::UnhandledExpression { info, .. } => info,
    }
}

pub fn expr_info(e: &Expression) -> (r: &NodeInfo)
    ensures
        *r == info_of(*e),
{
    match e {
        Expression::Literal(x) => &x.info,
        Expression::Identifier(x) => &x.info,
        Expression::UnaryOperation(x) => &x.info,
        Expression::BinaryOperation(x) => &x.info,
        Expression::Conditional(x) => &x.info,
        Expression::Assignment(x) => &x.info,
        Expression::FunctionCall(x) => &x.info,
        Expression::FunctionCallOptions(x) => &x.info,
        Expression::IndexAccess(x) => &x.info,
        Expression::IndexRangeAccess(x) => &x.info,
        Expression::MemberAccess(x) => &x.info,
        Expression::ElementaryTypeNameExpression(x) => &x.info,
        Expression::TupleExpression(x) => &x.info,
        Expression::NewExpression(x) => &x.info,
        Expression::UnhandledExpression { info, .. } => info,
    }
}

/// Whether an operation with the operator `op` occurs in `e`.
pub fn contains_operation(e: &Expression, op: &str) -> (r: bool)
    ensures
        r == contains_op(*e, op@),
    decreases e,
{
    match e {
        Expression::UnaryOperation(u) => crate::text::str_eq(u.operator.as_str(), op)
            || contains_operation(&u.sub_expression, op),
        Expression::BinaryOperation(b) => crate::text::str_eq(b.operator.as_str(), op)
            || contains_operation(&b.left_expression, op) || contains_operation(
            &b.right_expression,
            op,
        ),
        Expression::Assignment(a) => crate::text::str_eq(a.operator.as_str(), op)
            || contains_operation(&a.left_hand_side, op) || contains_operation(
            &a.right_hand_side,
            op,
        ),
        Expression::Conditional(c) => contains_operation(&c.condition, op) || contains_operation(
            &c.true_expression,
            op,
        ) || contains_operation(&c.false_expression, op),
        Expression::FunctionCall(f) => {
            if contains_operation(&f.expression, op) {
                return true;
            }
            let n = f.arguments.len();
            let mut i: usize = 0;
            while i < n
                invariant
                    *e == Expression::FunctionCall(*f),
                    n == f.arguments@.len(),
                    i <= n,
                    contains_op_list(f.arguments@.subrange(0, i as int), op@) == false,
                decreases n - i,
            {
                assert(f.arguments@.subrange(0, i + 1).subrange(0, i as int) =~= f.arguments@.subrange(0, i as int));
                proof {
                    assert(decreases_to!(*e => (*e)->FunctionCall_0));
                    assert((*e)->FunctionCall_0 == *f);
                    assert(decreases_to!(*f => f.arguments));
                    assert(decreases_to!(f.arguments => f.arguments@));
                    assert(decreases_to!(f.arguments@ => f.arguments@[i as int]));
                    assert(decreases_to!(e => f.arguments@[i as int]));
                }
                if contains_operation(&f.arguments[i], op) {
                    proof {
                        assert(contains_op_list(f.arguments@.subrange(0, i + 1), op@));
                        lemma_contains_op_list_prefix(f.arguments@, i as int + 1, op@);
                        assert(contains_op(*e, op@));
                    }
                    return true;
                }
                i = i + 1;
            }
            assert(f.arguments@.subrange(0, n as int) =~= f.arguments@);
            false
        },
        _ => false,
    }
}

proof fn lemma_contains_op_list_prefix(es: Seq<Expression>, k: int, op: Seq<char>)
    requires
        0 <= k <= es.len(),
        contains_op_list(es.subrange(0, k), op),
    ensures
        contains_op_list(es, op),
    decreases es.len() - k,
{
    if k < es.len() {
        assert(es.subrange(0, k + 1).subrange(0, k) =~= es.subrange(0, k));
        lemma_contains_op_list_prefix(es, k + 1, op);
    } else {
        assert(es.subrange(0, k) =~= es);
    }
}

proof fn lemma_refs_list_step(es: Seq<Expression>, i: int)
    requires
        0 <= i < es.len(),
    ensures
        refs_list(es.subrange(0, i + 1)) == refs_list(es.subrange(0, i)) + refs(es[i]),
{
    assert(es.subrange(0, i + 1).subrange(0, i) =~= es.subrange(0, i));
}

proof fn lemma_refs_opt_list_step(es: Seq<Option<Expression>>, i: int)
    requires
        0 <= i < es.len(),
    ensures
        refs_opt_list(es.subrange(0, i + 1)) == refs_opt_list(es.subrange(0, i)) + match es[i] {
            Some(x) => refs(x),
            None => Seq::empty(),
        },
{
    assert(es.subrange(0, i + 1).subrange(0, i) =~= es.subrange(0, i));
}

/// Appends to `out` the declarations that `e` refers to.
fn push_refs(e: &Expression, out: &mut Vec<NodeId>)
    ensures
        final(out)@ == old(out)@ + refs(*e),
    decreases e,
{
    match e {
        Expression::Identifier(i) => {
            out.push(i.referenced_declaration);
        },
        Expression::MemberAccess(m) => {
            push_refs(&m.expression, out);
            if let Some(id) = m.referenced_declaration {
                out.push(id);
            }
        },
        Expression::IndexAccess(a) => {
            push_refs(&a.base_expression, out);
            if let Some(x) = &a.index_expression {
                push_refs(x, out);
            }
        },
        Expression::IndexRangeAccess(a) => {
            push_refs(&a.base_expression, out);
            if let Some(x) = &a.start_expression {
                push_refs(x, out);
            }
            if let Some(x) = &a.end_expression {
                push_refs(x, out);
            }
        },
        Expression::FunctionCall(f) => {
            push_refs(&f.expression, out);
            let ghost start = out@;
            let n = f.arguments.len();
            let mut i: usize = 0;
            while i < n
                invariant
                    *e == Expression::FunctionCall(*f),
                    n == f.arguments@.len(),
                    i <= n,
                    out@ == start + refs_list(f.arguments@.subrange(0, i as int)),
                decreases n - i,
            {
                proof {
                    assert(decreases_to!(*e => (*e)->FunctionCall_0));
                    assert(decreases_to!(f.arguments => f.arguments@));
                    assert(decreases_to!(f.arguments@ => f.arguments@[i as int]));
                    lemma_refs_list_step(f.arguments@, i as int);
                }
                push_refs(&f.arguments[i], out);
                i = i + 1;
            }
            assert(f.arguments@.subrange(0, n as int) =~= f.arguments@);
        },
        Expression::FunctionCallOptions(f) => {
            push_refs(&f.expression, out);
            let ghost start = out@;
            let n = f.options.len();
            let mut i: usize = 0;
            while i < n
                invariant
                    *e == Expression::FunctionCallOptions(*f),
                    n == f.options@.len(),
                    i <= n,
                    out@ == start + refs_list(f.options@.subrange(0, i as int)),
                decreases n - i,
            {
                proof {
                    assert(decreases_to!(*e => (*e)->FunctionCallOptions_0));
                    assert(decreases_to!(f.options => f.options@));
                    assert(decreases_to!(f.options@ => f.options@[i as int]));
                    lemma_refs_list_step(f.options@, i as int);
                }
                push_refs(&f.options[i], out);
                i = i + 1;
            }
            assert(f.options@.subrange(0, n as int) =~= f.options@);
        },
        Expression::UnaryOperation(u) => {
            push_refs(&u.sub_expression, out);
        },
        Expression::BinaryOperation(b) => {
            push_refs(&b.left_expression, out);
            push_refs(&b.right_expression, out);
        },
        Expression::Conditional(c) => {
            push_refs(&c.condition, out);
            push_refs(&c.true_expression, out);
            push_refs(&c.false_expression, out);
        },
        Expression::Assignment(a) => {
            push_refs(&a.left_hand_side, out);
            push_refs(&a.right_hand_side, out);
        },
        Expression::TupleExpression(t) => {
            let ghost start = out@;
            let n = t.components.len();
            let mut i: usize = 0;
            while i < n
                invariant
                    *e == Expression::TupleExpression(*t),
                    n == t.components@.len(),
                    i <= n,
                    out@ == start + refs_opt_list(t.components@.subrange(0, i as int)),
                decreases n - i,
            {
                proof {
                    lemma_refs_opt_list_step(t.components@, i as int);
                }
                if let Some(x) = &t.components[i] {
                    proof {
                        assert(decreases_to!(*e => (*e)->TupleExpression_0));
                        assert(decreases_to!(t.components => t.components@));
                        assert(decreases_to!(t.components@ => t.components@[i as int]));
                        assert(decreases_to!(t.components@[i as int] => t.components@[i as int]->Some_0));
                    }
                    push_refs(x, out);
                } else {
                    assert(out@ =~= out@ + Seq::<NodeId>::empty());
                }
                i = i + 1;
            }
            assert(t.components@.subrange(0, n as int) =~= t.components@);
        },
        _ => {
            assert(out@ =~= out@ + Seq::<NodeId>::empty());
        },
    }
    proof {
        // `+` of the pieces is associative
        assert(final(out)@ =~= old(out)@ + refs(*e));
    }
}

/// The declarations `e` refers to, in source order.
pub fn referenced_declarations(e: &Expression) -> (r: Vec<NodeId>)
    ensures
        r@ == refs(*e),
{
    let mut out = Vec::new();
    push_refs(e, &mut out);
    assert(out@ =~= refs(*e));
    out
}

/// The innermost base of an access or call chain: an identifier stands for
/// itself, and member accesses, index accesses and calls lead to the
/// expression they are applied to. Other expressions have none.
pub open spec fn root_of(e: Expression) -> Option<Expression>
    decreases e,
{
    match e {
        Expression::Identifier(_) => Some(e),
        Expression::MemberAccess(m) => root_of(*m.expression),
        Expression::IndexAccess(a) => root_of(*a.base_expression),
        Expression::IndexRangeAccess(a) => root_of(*a.base_expression),
        Expression::FunctionCall(f) => root_of(*f.expression),
        Expression::FunctionCallOptions(f) => root_of(*f.expression),
        _ => None,
    }
}

pub fn root_expression(e: &Expression) -> (r: Option<&Expression>)
    ensures
        r matches Some(x) ==> root_of(*e) == Some(*x),
        r is None ==> root_of(*e) is None,
    decreases e,
{
    match e {
        Expression::Identifier(_) => Some(e),
        Expression::MemberAccess(m) => root_expression(&m.expression),
        Expression::IndexAccess(a) => root_expression(&a.base_expression),
        Expression::IndexRangeAccess(a) => root_expression(&a.base_expression),
        Expression::FunctionCall(f) => root_expression(&f.expression),
        Expression::FunctionCallOptions(f) => root_expression(&f.expression),
        _ => None,
    }
}

/// The contract at node `j` of source unit `i`, if that node is a contract.
pub open spec fn contract_at(units: Seq<SourceUnit>, i: int, j: int) -> Option<ContractDefinition> {
    if 0 <= i < units.len() && 0 <= j < units[i].nodes@.len() {
        match units[i].nodes@[j] {
            SourceUnitNode::ContractDefinition(c) => Some(c),
            _ => None,
        }
    } else {
        None
    }
}

pub open spec fn is_contract_with_id(units: Seq<SourceUnit>, i: int, j: int, id: NodeId) -> bool {
    contract_at(units, i, j) matches Some(c) && c.info.id == id
}

/// Whether some source unit defines a contract with the identifier `id`.
pub open spec fn has_contract(units: Seq<SourceUnit>, id: NodeId) -> bool {
    exists|i: int, j: int| #[trigger] is_contract_with_id(units, i, j, id)
}

/// The function at node `k` of the contract at node `j` of source unit `i`.
pub open spec fn function_at(units: Seq<SourceUnit>, i: int, j: int, k: int) -> Option<
    (ContractDefinition, FunctionDefinition),
> {
    match contract_at(units, i, j) {
        Some(c) => if 0 <= k < c.nodes@.len() {
            match c.nodes@[k] {
                ContractDefinitionNode::FunctionDefinition(f) => Some((c, f)),
                _ => None,
            }
        } else {
            None
        },
        None => None,
    }
}

pub open spec fn is_function_with_id(units: Seq<SourceUnit>, i: int, j: int, k: int, id: NodeId) -> bool {
    function_at(units, i, j, k) matches Some(p) && p.1.info.id == id
}

/// Whether some contract defines a function with the identifier `id`.
pub open spec fn has_function(units: Seq<SourceUnit>, id: NodeId) -> bool {
    exists|i: int, j: int, k: int| #[trigger] is_function_with_id(units, i, j, k, id)
}

/// The first contract with the identifier `id` among `nodes`.
pub open spec fn first_in_nodes(nodes: Seq<SourceUnitNode>, id: NodeId) -> Option<ContractDefinition>
    decreases nodes.len(),
{
    if nodes.len() == 0 {
        None
    } else {
        match nodes[0] {
            SourceUnitNode::ContractDefinition(c) => if c.info.id == id {
                Some(c)
            } else {
                first_in_nodes(nodes.drop_first(), id)
            },
            _ => first_in_nodes(nodes.drop_first(), id),
        }
    }
}

/// The first contract with the identifier `id`, searching the source units in
/// order and each one's nodes in order.
pub open spec fn first_contract(units: Seq<SourceUnit>, id: NodeId) -> Option<ContractDefinition>
    decreases units.len(),
{
    if units.len() == 0 {
        None
    } else {
        match first_in_nodes(units[0].nodes@, id) {
            Some(c) => Some(c),
            None => first_contract(units.drop_first(), id),
        }
    }
}

/// Finds the first contract with the identifier `id` among the source units.
pub fn find_contract<'a>(units: &'a Vec<SourceUnit>, id: NodeId) -> (r: Option<&'a ContractDefinition>)
    ensures
        match r {
            Some(c) => first_contract(units@, id) == Some(*c),
            None => first_contract(units@, id) is None,
        },
        r matches Some(c) ==> c.info.id == id && exists|i: int, j: int|
            contract_at(units@, i, j) == Some(*c),
        r is None ==> !has_contract(units@, id),
{
    let n = units.len();
    let mut i: usize = 0;
    assert(units@.skip(0) =~= units@);
    while i < n
        invariant
            n == units@.len(),
            i <= n,
            first_contract(units@, id) == first_contract(units@.skip(i as int), id),
            forall|a: int, b: int| 0 <= a < i ==> !#[trigger] is_contract_with_id(units@, a, b, id),
        decreases n - i,
    {
        let m = units[i].nodes.len();
        let ghost nodes = units@[i as int].nodes@;
        let mut j: usize = 0;
        assert(nodes.skip(0) =~= nodes);
        while j < m
            invariant
                n == units@.len(),
                i < n,
                nodes == units@[i as int].nodes@,
                m == nodes.len(),
                j <= m,
                first_in_nodes(nodes, id) == first_in_nodes(nodes.skip(j as int), id),
                first_contract(units@, id) == first_contract(units@.skip(i as int), id),
                forall|a: int, b: int| 0 <= a < i ==> !#[trigger] is_contract_with_id(units@, a, b, id),
                forall|b: int| 0 <= b < j ==> !#[trigger] is_contract_with_id(units@, i as int, b, id),
            decreases m - j,
        {
            assert(nodes.skip(j as int)[0] == nodes[j as int]);
            assert(nodes.skip(j as int).drop_first() =~= nodes.skip(j + 1));
            if let SourceUnitNode::ContractDefinition(c) = &units[i].nodes[j] {
                if c.info.id == id {
                    assert(contract_at(units@, i as int, j as int) == Some(*c));
                    assert(units@.skip(i as int)[0] == units@[i as int]);
                    assert(first_in_nodes(nodes.skip(j as int), id) == Some(*c));
                    assert(first_in_nodes(units@.skip(i as int)[0].nodes@, id) == Some(*c));
                    assert(first_contract(units@.skip(i as int), id) == Some(*c));
                    return Some(c);
                }
            }
            assert(!is_contract_with_id(units@, i as int, j as int, id));
            j = j + 1;
        }
        assert(nodes.skip(m as int) =~= Seq::<SourceUnitNode>::empty());
        assert(units@.skip(i as int)[0] == units@[i as int]);
        assert(units@.skip(i as int).drop_first() =~= units@.skip(i + 1));
        assert forall|a: int, b: int| 0 <= a < i + 1 implies !#[trigger] is_contract_with_id(units@, a, b, id) by {
            if a == i && !(0 <= b < m) {
                assert(contract_at(units@, a, b) is None);
            }
        }
        i = i + 1;
    }
    assert(units@.skip(n as int) =~= Seq::<SourceUnit>::empty());
    None
}

/// Whether position `(a, b, c)` comes before `(i, j, k)`: source unit, then
/// node, then contract node.
pub open spec fn position_before(a: int, b: int, c: int, i: int, j: int, k: int) -> bool {
    a < i || (a == i && b < j) || (a == i && b == j && c < k)
}

/// The function with identifier `id` at `(i, j, k)` is the first one, in
/// source order, with that identifier.
pub open spec fn is_first_function(units: Seq<SourceUnit>, i: int, j: int, k: int, id: NodeId) -> bool {
    &&& is_function_with_id(units, i, j, k, id)
    &&& forall|a: int, b: int, c: int|
        position_before(a, b, c, i, j, k) ==> !#[trigger] is_function_with_id(units, a, b, c, id)
}

/// The first function, in source order, with the identifier `id`, with the
/// contract that defines it.
pub open spec fn first_function(units: Seq<SourceUnit>, id: NodeId) -> Option<(ContractDefinition, FunctionDefinition)> {
    if exists|i: int, j: int, k: int| #[trigger] is_first_function(units, i, j, k, id) {
        let (i, j, k) = choose|i: int, j: int, k: int| #[trigger] is_first_function(units, i, j, k, id);
        function_at(units, i, j, k)
    } else {
        None
    }
}

proof fn lemma_first_function_unique(units: Seq<SourceUnit>, i: int, j: int, k: int, id: NodeId)
    requires
        is_first_function(units, i, j, k, id),
    ensures
        first_function(units, id) == function_at(units, i, j, k),
{
    let (a, b, c) = choose|a: int, b: int, c: int| #[trigger] is_first_function(units, a, b, c, id);
    assert(is_first_function(units, a, b, c, id));
    if position_before(a, b, c, i, j, k) {
        assert(!is_function_with_id(units, a, b, c, id));
    } else if position_before(i, j, k, a, b, c) {
        assert(!is_function_with_id(units, i, j, k, id));
    } else {
        assert(a == i && b == j && c == k);
    }
}

/// Finds the first function, in source order, with the identifier `id`, with
/// the contract that defines it.
pub fn find_function_and_contract<'a>(units: &'a Vec<SourceUnit>, id: NodeId) -> (r: Option<
    (&'a ContractDefinition, &'a FunctionDefinition),
>)
    ensures
        r matches Some(p) ==> p.1.info.id == id && exists|i: int, j: int, k: int|
            function_at(units@, i, j, k) == Some((*p.0, *p.1)),
        r is None ==> !has_function(units@, id),
        match r {
            Some(p) => first_function(units@, id) == Some((*p.0, *p.1)),
            None => first_function(units@, id) is None,
        },
{
    let n = units.len();
    let mut i: usize = 0;
    while i < n
        invariant
            n == units@.len(),
            i <= n,
            forall|a: int, b: int, c: int| 0 <= a < i ==> !#[trigger] is_function_with_id(units@, a, b, c, id),
        decreases n - i,
    {
        let m = units[i].nodes.len();
        let mut j: usize = 0;
        while j < m
            invariant
                n == units@.len(),
                i < n,
                m == units@[i as int].nodes@.len(),
                j <= m,
                forall|a: int, b: int, c: int| 0 <= a < i ==> !#[trigger] is_function_with_id(units@, a, b, c, id),
                forall|b: int, c: int| 0 <= b < j ==> !#[trigger] is_function_with_id(units@, i as int, b, c, id),
            decreases m - j,
        {
            if let SourceUnitNode::ContractDefinition(cd) = &units[i].nodes[j] {
                assert(contract_at(units@, i as int, j as int) == Some(*cd));
                let q = cd.nodes.len();
                let mut k: usize = 0;
                while k < q
                    invariant
                        n == units@.len(),
                        i < n,
                        m == units@[i as int].nodes@.len(),
                        j < m,
                        contract_at(units@, i as int, j as int) == Some(*cd),
                        q == cd.nodes@.len(),
                        k <= q,
                        forall|a: int, b: int, c: int| 0 <= a < i ==> !#[trigger] is_function_with_id(units@, a, b, c, id),
                        forall|b: int, c: int| 0 <= b < j ==> !#[trigger] is_function_with_id(units@, i as int, b, c, id),
                        forall|c: int| 0 <= c < k ==> !#[trigger] is_function_with_id(units@, i as int, j as int, c, id),
                    decreases q - k,
                {
                    if let ContractDefinitionNode::FunctionDefinition(f) = &cd.nodes[k] {
                        if f.info.id == id {
                            assert(function_at(units@, i as int, j as int, k as int) == Some((*cd, *f)));
                            proof {
                                assert(is_first_function(units@, i as int, j as int, k as int, id));
                                lemma_first_function_unique(units@, i as int, j as int, k as int, id);
                            }
                            return Some((cd, f));
                        }
                    }
                    assert(!is_function_with_id(units@, i as int, j as int, k as int, id));
                    k = k + 1;
                }
                assert forall|c: int| 0 <= c < q || c < 0 || c >= q implies !#[trigger] is_function_with_id(units@, i as int, j as int, c, id) by {
                    if !(0 <= c < q) {
                        assert(function_at(units@, i as int, j as int, c) is None);
                    }
                }
            } else {
                assert forall|c: int| !#[trigger] is_function_with_id(units@, i as int, j as int, c, id) by {
                    assert(contract_at(units@, i as int, j as int) is None);
                }
            }
            j = j + 1;
        }
        assert forall|a: int, b: int, c: int| 0 <= a < i + 1 implies !#[trigger] is_function_with_id(units@, a, b, c, id) by {
            if a == i && !(0 <= b < m) {
                assert(contract_at(units@, a, b) is None);
            }
        }
        i = i + 1;
    }
    assert(!exists|i: int, j: int, k: int| #[trigger] is_first_function(units@, i, j, k, id)) by {
        assert forall|i: int, j: int, k: int| !#[trigger] is_first_function(units@, i, j, k, id) by {
            if 0 <= i < n {
            } else {
                assert(!is_function_with_id(units@, i, j, k, id)) by {
                    assert(contract_at(units@, i, j) is None);
                }
            }
        }
    }
    None
}

/// The state variable at node `k` of contract `c`, if that node declares one.
pub open spec fn variable_at(c: ContractDefinition, k: int) -> Option<VariableDeclaration> {
    if 0 <= k < c.nodes@.len() {
        match c.nodes@[k] {
            ContractDefinitionNode::VariableDeclaration(v) => Some(v),
            _ => None,
        }
    } else {
        None
    }
}

pub open spec fn is_variable_with_id(c: ContractDefinition, k: int, id: NodeId) -> bool {
    variable_at(c, k) matches Some(v) && v.info.id == id
}

pub open spec fn declares_variable(c: ContractDefinition, id: NodeId) -> bool {
    exists|k: int| #[trigger] is_variable_with_id(c, k, id)
}

/// The first state variable among `nodes`, in order, with the identifier `id`.
pub open spec fn first_variable_in(nodes: Seq<ContractDefinitionNode>, id: NodeId) -> Option<VariableDeclaration>
    decreases nodes.len(),
{
    if nodes.len() == 0 {
        None
    } else {
        match nodes[0] {
            ContractDefinitionNode::VariableDeclaration(v) => if v.info.id == id {
                Some(v)
            } else {
                first_variable_in(nodes.drop_first(), id)
            },
            _ => first_variable_in(nodes.drop_first(), id),
        }
    }
}

/// The first state variable of `c`, in order, with the identifier `id`.
pub open spec fn first_variable(c: ContractDefinition, id: NodeId) -> Option<VariableDeclaration> {
    first_variable_in(c.nodes@, id)
}

/// Finds the first state variable with the identifier `id` declared by `c`.
pub fn find_variable(c: &ContractDefinition, id: NodeId) -> (r: Option<&VariableDeclaration>)
    ensures
        r matches Some(v) ==> v.info.id == id && exists|k: int| variable_at(*c, k) == Some(*v),
        r is None ==> !declares_variable(*c, id),
        match r {
            Some(v) => first_variable(*c, id) == Some(*v),
            None => first_variable(*c, id) is None,
        },
{
    let n = c.nodes.len();
    let mut k: usize = 0;
    assert(c.nodes@.skip(0) =~= c.nodes@);
    while k < n
        invariant
            n == c.nodes@.len(),
            k <= n,
            forall|b: int| 0 <= b < k ==> !#[trigger] is_variable_with_id(*c, b, id),
            first_variable(*c, id) == first_variable_in(c.nodes@.skip(k as int), id),
        decreases n - k,
    {
        assert(c.nodes@.skip(k as int)[0] == c.nodes@[k as int]);
        assert(c.nodes@.skip(k as int).drop_first() =~= c.nodes@.skip(k + 1));
        if let ContractDefinitionNode::VariableDeclaration(v) = &c.nodes[k] {
            if v.info.id == id {
                assert(variable_at(*c, k as int) == Some(*v));
                proof {
                    assert(c.nodes@.skip(k as int)[0] == c.nodes@[k as int]);
                }
                return Some(v);
            }
        }
        assert(!is_variable_with_id(*c, k as int, id));
        k = k + 1;
    }
    assert forall|b: int| !#[trigger] is_variable_with_id(*c, b, id) by {
        if !(0 <= b < n) {
            assert(variable_at(*c, b) is None);
        }
    }
    assert(c.nodes@.skip(n as int) =~= Seq::<ContractDefinitionNode>::empty());
    None
}

/// The contracts a contract inherits from, itself included: its linearized
/// base contracts, or only itself where the compiler gave none.
pub open spec fn hierarchy_of(c: ContractDefinition) -> Seq<NodeId> {
    match c.linearized_base_contracts {
        Some(v) => v@,
        None => seq![c.info.id],
    }
}

pub open spec fn base_declares(units: Seq<SourceUnit>, i: int, j: int, base: NodeId, var: NodeId) -> bool {
    contract_at(units, i, j) matches Some(b) && b.info.id == base && declares_variable(b, var)
}

/// Whether a contract with the identifier `base` declares the state variable `var`.
pub open spec fn some_base_declares(units: Seq<SourceUnit>, base: NodeId, var: NodeId) -> bool {
    exists|i: int, j: int| #[trigger] base_declares(units, i, j, base, var)
}

/// Whether a contract of `c`'s hierarchy declares the state variable `var`.
pub open spec fn in_hierarchy(units: Seq<SourceUnit>, c: ContractDefinition, var: NodeId) -> bool {
    exists|k: int| 0 <= k < hierarchy_of(c).len() && some_base_declares(units, #[trigger] hierarchy_of(c)[k], var)
}

fn any_base_declares(units: &Vec<SourceUnit>, base: NodeId, var: NodeId) -> (r: bool)
    ensures
        r == some_base_declares(units@, base, var),
{
    let n = units.len();
    let mut i: usize = 0;
    while i < n
        invariant
            n == units@.len(),
            i <= n,
            forall|a: int, b: int| 0 <= a < i ==> !#[trigger] base_declares(units@, a, b, base, var),
        decreases n - i,
    {
        let m = units[i].nodes.len();
        let mut j: usize = 0;
        while j < m
            invariant
                n == units@.len(),
                i < n,
                m == units@[i as int].nodes@.len(),
                j <= m,
                forall|a: int, b: int| 0 <= a < i ==> !#[trigger] base_declares(units@, a, b, base, var),
                forall|b: int| 0 <= b < j ==> !#[trigger] base_declares(units@, i as int, b, base, var),
            decreases m - j,
        {
            if let SourceUnitNode::ContractDefinition(c) = &units[i].nodes[j] {
                assert(contract_at(units@, i as int, j as int) == Some(*c));
                let found = find_variable(c, var);
                if c.info.id == base && found.is_some() {
                    proof {
                        let v = found.unwrap();
                        let k = choose|k: int| variable_at(*c, k) == Some(*v);
                        assert(is_variable_with_id(*c, k, var));
                        assert(base_declares(units@, i as int, j as int, base, var));
                    }
                    return true;
                }
            }
            j = j + 1;
        }
        assert forall|a: int, b: int| 0 <= a < i + 1 implies !#[trigger] base_declares(units@, a, b, base, var) by {
            if a == i && !(0 <= b < m) {
                assert(contract_at(units@, a, b) is None);
            }
        }
        i = i + 1;
    }
    false
}

/// Whether `var` is a state variable of `c` or of a contract it inherits from.
pub fn hierarchy_contains_state_variable(units: &Vec<SourceUnit>, c: &ContractDefinition, var: NodeId) -> (r: bool)
    ensures
        r == in_hierarchy(units@, *c, var),
{
    match &c.linearized_base_contracts {
        Some(bases) => {
            let n = bases.len();
            let mut k: usize = 0;
            while k < n
                invariant
                    c.linearized_base_contracts == Some(*bases),
                    n == bases@.len(),
                    k <= n,
                    forall|b: int| 0 <= b < k ==> !some_base_declares(units@, #[trigger] bases@[b], var),
                decreases n - k,
            {
                if any_base_declares(units, bases[k], var) {
                    assert(hierarchy_of(*c)[k as int] == bases@[k as int]);
                    return true;
                }
                k = k + 1;
            }
            false
        },
        None => {
            let r = any_base_declares(units, c.info.id, var);
            proof {
                if r {
                    assert(hierarchy_of(*c)[0] == c.info.id);
                }
            }
            r
        },
    }
}

/// The state variables (of `c`'s hierarchy) that an assignment to `e` writes:
/// an identifier names one, and accesses and tuples lead to what they hold.
pub open spec fn assigned_vars(units: Seq<SourceUnit>, c: ContractDefinition, e: Expression) -> Seq<NodeId>
    decreases e,
{
    match e {
        Expression::Identifier(i) => if in_hierarchy(units, c, i.referenced_declaration) {
            seq![i.referenced_declaration]
        } else {
            Seq::empty()
        },
        Expression::Assignment(a) => assigned_vars(units, c, *a.left_hand_side),
        Expression::IndexAccess(a) => assigned_vars(units, c, *a.base_expression),
        Expression::IndexRangeAccess(a) => assigned_vars(units, c, *a.base_expression),
        Expression::MemberAccess(m) => assigned_vars(units, c, *m.expression),
        Expression::TupleExpression(t) => assigned_vars_list(units, c, t.components@),
        _ => Seq::empty(),
    }
}

pub open spec fn assigned_vars_list(units: Seq<SourceUnit>, c: ContractDefinition, es: Seq<Option<Expression>>) -> Seq<NodeId>
    decreases es,
{
    if es.len() == 0 {
        Seq::empty()
    } else {
        assigned_vars_list(units, c, es.subrange(0, es.len() - 1)) + match es[es.len() - 1] {
            Some(x) => assigned_vars(units, c, x),
            None => Seq::empty(),
        }
    }
}

fn push_assigned(units: &Vec<SourceUnit>, c: &ContractDefinition, e: &Expression, out: &mut Vec<NodeId>)
    ensures
        final(out)@ == old(out)@ + assigned_vars(units@, *c, *e),
    decreases e,
{
    match e {
        Expression::Identifier(i) => {
            if hierarchy_contains_state_variable(units, c, i.referenced_declaration) {
                out.push(i.referenced_declaration);
            } else {
                assert(out@ =~= out@ + Seq::<NodeId>::empty());
            }
        },
        Expression::Assignment(a) => push_assigned(units, c, &a.left_hand_side, out),
        Expression::IndexAccess(a) => push_assigned(units, c, &a.base_expression, out),
        Expression::IndexRangeAccess(a) => push_assigned(units, c, &a.base_expression, out),
        Expression::MemberAccess(m) => push_assigned(units, c, &m.expression, out),
        Expression::TupleExpression(t) => {
            let ghost start = out@;
            let n = t.components.len();
            let mut i: usize = 0;
            while i < n
                invariant
                    *e == Expression::TupleExpression(*t),
                    n == t.components@.len(),
                    i <= n,
                    out@ == start + assigned_vars_list(units@, *c, t.components@.subrange(0, i as int)),
                decreases n - i,
            {
                proof {
                    assert(t.components@.subrange(0, i + 1).subrange(0, i as int) =~= t.components@.subrange(0, i as int));
                }
                if let Some(x) = &t.components[i] {
                    proof {
                        assert(decreases_to!(*e => (*e)->TupleExpression_0));
                        assert(decreases_to!(t.components => t.components@));
                        assert(decreases_to!(t.components@ => t.components@[i as int]));
                        assert(decreases_to!(t.components@[i as int] => t.components@[i as int]->Some_0));
                    }
                    push_assigned(units, c, x, out);
                } else {
                    assert(out@ =~= out@ + Seq::<NodeId>::empty());
                }
                assert(out@ =~= start + assigned_vars_list(units@, *c, t.components@.subrange(0, i + 1)));
                i = i + 1;
            }
            assert(t.components@.subrange(0, n as int) =~= t.components@);
        },
        _ => {
            assert(out@ =~= out@ + Seq::<NodeId>::empty());
        },
    }
}

/// The state variables that an assignment to `e` writes.
pub fn get_assigned_state_variables(units: &Vec<SourceUnit>, c: &ContractDefinition, e: &Expression) -> (r: Vec<NodeId>)
    ensures
        r@ == assigned_vars(units@, *c, *e),
{
    let mut out = Vec::new();
    push_assigned(units, c, e, &mut out);
    assert(out@ =~= assigned_vars(units@, *c, *e));
    out
}

/// Whether `id` is the identifier of one of `f`'s return parameters.
pub open spec fn is_return_parameter(f: FunctionDefinition, id: NodeId) -> bool {
    exists|k: int| 0 <= k < f.return_parameters@.len() && (#[trigger] f.return_parameters@[k]).info.id == id
}

fn returns_parameter(f: &FunctionDefinition, id: NodeId) -> (r: bool)
    ensures
        r == is_return_parameter(*f, id),
{
    let mut k: usize = 0;
    while k < f.return_parameters.len()
        invariant
            k <= f.return_parameters@.len(),
            forall|j: int| 0 <= j < k ==> (#[trigger] f.return_parameters@[j]).info.id != id,
        decreases f.return_parameters@.len() - k,
    {
        if f.return_parameters[k].info.id == id {
            return true;
        }
        k = k + 1;
    }
    false
}

/// The return parameters of `f` that an assignment to `e` writes: an
/// identifier names one, and accesses and tuples lead to what they hold.
pub open spec fn assigned_returns(f: FunctionDefinition, e: Expression) -> Seq<NodeId>
    decreases e,
{
    match e {
        Expression::Identifier(i) => if is_return_parameter(f, i.referenced_declaration) {
            seq![i.referenced_declaration]
        } else {
            Seq::empty()
        },
        Expression::Assignment(a) => assigned_returns(f, *a.left_hand_side),
        Expression::IndexAccess(a) => assigned_returns(f, *a.base_expression),
        Expression::IndexRangeAccess(a) => assigned_returns(f, *a.base_expression),
        Expression::MemberAccess(m) => assigned_returns(f, *m.expression),
        Expression::TupleExpression(t) => assigned_returns_list(f, t.components@),
        _ => Seq::empty(),
    }
}

pub open spec fn assigned_returns_list(f: FunctionDefinition, es: Seq<Option<Expression>>) -> Seq<NodeId>
    decreases es,
{
    if es.len() == 0 {
        Seq::empty()
    } else {
        assigned_returns_list(f, es.subrange(0, es.len() - 1)) + match es[es.len() - 1] {
            Some(x) => assigned_returns(f, x),
            None => Seq::empty(),
        }
    }
}

fn push_assigned_returns(f: &FunctionDefinition, e: &Expression, out: &mut Vec<NodeId>)
    ensures
        final(out)@ == old(out)@ + assigned_returns(*f, *e),
    decreases e,
{
    match e {
        Expression::Identifier(i) => {
            if returns_parameter(f, i.referenced_declaration) {
                out.push(i.referenced_declaration);
            } else {
                assert(out@ =~= out@ + Seq::<NodeId>::empty());
            }
        },
        Expression::Assignment(a) => push_assigned_returns(f, &a.left_hand_side, out),
        Expression::IndexAccess(a) => push_assigned_returns(f, &a.base_expression, out),
        Expression::IndexRangeAccess(a) => push_assigned_returns(f, &a.base_expression, out),
        Expression::MemberAccess(m) => push_assigned_returns(f, &m.expression, out),
        Expression::TupleExpression(t) => {
            let ghost start = out@;
            let n = t.components.len();
            let mut i: usize = 0;
            while i < n
                invariant
                    *e == Expression::TupleExpression(*t),
                    n == t.components@.len(),
                    i <= n,
                    out@ == start + assigned_returns_list(*f, t.components@.subrange(0, i as int)),
                decreases n - i,
            {
                proof {
                    assert(t.components@.subrange(0, i + 1).subrange(0, i as int) =~= t.components@.subrange(0, i as int));
                }
                if let Some(x) = &t.components[i] {
                    proof {
                        assert(decreases_to!(*e => (*e)->TupleExpression_0));
                        assert(decreases_to!(t.components => t.components@));
                        assert(decreases_to!(t.components@ => t.components@[i as int]));
                        assert(decreases_to!(t.components@[i as int] => t.components@[i as int]->Some_0));
                    }
                    push_assigned_returns(f, x, out);
                } else {
                    assert(out@ =~= out@ + Seq::<NodeId>::empty());
                }
                assert(out@ =~= start + assigned_returns_list(*f, t.components@.subrange(0, i + 1)));
                i = i + 1;
            }
            assert(t.components@.subrange(0, n as int) =~= t.components@);
        },
        _ => {
            assert(out@ =~= out@ + Seq::<NodeId>::empty());
        },
    }
}

/// The return parameters of `f` that an assignment to `e` writes.
pub fn get_assigned_return_variables(f: &FunctionDefinition, e: &Expression) -> (r: Vec<NodeId>)
    ensures
        r@ == assigned_returns(*f, *e),
{
    let mut out = Vec::new();
    push_assigned_returns(f, e, &mut out);
    assert(out@ =~= assigned_returns(*f, *e));
    out
}

/// Whether a return statement occurs anywhere in `s`, however deeply nested.
pub open spec fn statement_returns(s: Statement) -> bool
    decreases s,
{
    match s {
        Statement::Return(_) => true,
        Statement::IfStatement(i) => body_returns(i.true_body) || match i.false_body {
            Some(b) => body_returns(b),
            None => false,
        },
        Statement::ForStatement(f) => (match f.initialization_expression {
            Some(x) => statement_returns(*x),
            None => false,
        }) || (match f.loop_expression {
            Some(x) => statement_returns(*x),
            None => false,
        }) || body_returns(f.body),
        Statement::WhileStatement(w) => body_returns(w.body),
        Statement::UncheckedBlock(b) => statements_return(b.statements@),
        Statement::TryStatement { clauses, .. } => clauses_return(clauses@),
        _ => false,
    }
}

pub open spec fn body_returns(b: BlockOrStatement) -> bool
    decreases b,
{
    match b {
        BlockOrStatement::Block(b) => statements_return(b.statements@),
        BlockOrStatement::Statement(s) => statement_returns(*s),
    }
}

pub open spec fn statements_return(ss: Seq<Statement>) -> bool
    decreases ss,
{
    if ss.len() == 0 {
        false
    } else {
        statements_return(ss.subrange(0, ss.len() - 1)) || statement_returns(ss[ss.len() - 1])
    }
}

pub open spec fn clauses_return(cs: Seq<TryCatchClause>) -> bool
    decreases cs,
{
    if cs.len() == 0 {
        false
    } else {
        clauses_return(cs.subrange(0, cs.len() - 1)) || statements_return(cs[cs.len() - 1].block.statements@)
    }
}

/// Whether a return statement occurs anywhere in the block `b`.
pub fn block_contains_returns(b: &Block) -> (r: bool)
    ensures
        r == statements_return(b.statements@),
    decreases b,
{
    let n = b.statements.len();
    let mut i: usize = 0;
    assert(b.statements@.subrange(0, 0) =~= Seq::<Statement>::empty());
    while i < n
        invariant
            n == b.statements@.len(),
            i <= n,
            !statements_return(b.statements@.subrange(0, i as int)),
        decreases n - i,
    {
        assert(b.statements@.subrange(0, i + 1).subrange(0, i as int) =~= b.statements@.subrange(0, i as int));
        proof {
            assert(decreases_to!(b.statements => b.statements@));
            assert(decreases_to!(b.statements@ => b.statements@[i as int]));
        }
        if statement_contains_returns(&b.statements[i]) {
            proof { lemma_statements_return_prefix(b.statements@, i + 1); }
            return true;
        }
        i = i + 1;
    }
    assert(b.statements@.subrange(0, n as int) =~= b.statements@);
    false
}

proof fn lemma_statements_return_prefix(ss: Seq<Statement>, k: int)
    requires
        0 <= k <= ss.len(),
        statements_return(ss.subrange(0, k)),
    ensures
        statements_return(ss),
    decreases ss.len() - k,
{
    if k < ss.len() {
        assert(ss.subrange(0, k + 1).subrange(0, k) =~= ss.subrange(0, k));
        lemma_statements_return_prefix(ss, k + 1);
    } else {
        assert(ss.subrange(0, k) =~= ss);
    }
}

fn body_contains_returns(b: &BlockOrStatement) -> (r: bool)
    ensures
        r == body_returns(*b),
    decreases b,
{
    match b {
        BlockOrStatement::Block(blk) => block_contains_returns(blk),
        BlockOrStatement::Statement(st) => statement_contains_returns(st),
    }
}

fn statement_contains_returns(s: &Statement) -> (r: bool)
    ensures
        r == statement_returns(*s),
    decreases s,
{
    match s {
        Statement::Return(_) => true,
        Statement::IfStatement(i) => body_contains_returns(&i.true_body) || match &i.false_body {
            Some(b) => body_contains_returns(b),
            None => false,
        },
        Statement::ForStatement(f) => (match &f.initialization_expression {
            Some(x) => statement_contains_returns(x),
            None => false,
        }) || (match &f.loop_expression {
            Some(x) => statement_contains_returns(x),
            None => false,
        }) || body_contains_returns(&f.body),
        Statement::WhileStatement(w) => body_contains_returns(&w.body),
        Statement::UncheckedBlock(b) => block_contains_returns(b),
        Statement::TryStatement { clauses, .. } => {
            let n = clauses.len();
            let mut i: usize = 0;
            assert(clauses@.subrange(0, 0) =~= Seq::<TryCatchClause>::empty());
            while i < n
                invariant
                    n == clauses@.len(),
                    i <= n,
                    s is TryStatement && s->clauses == *clauses,
                    !clauses_return(clauses@.subrange(0, i as int)),
                decreases n - i,
            {
                assert(clauses@.subrange(0, i + 1).subrange(0, i as int) =~= clauses@.subrange(0, i as int));
                proof {
                    assert(decreases_to!(*s => s->clauses));
                    assert(decreases_to!(*clauses => clauses@));
                    assert(decreases_to!(clauses@ => clauses@[i as int]));
                    assert(decreases_to!(clauses@[i as int] => clauses@[i as int].block));
                }
                if block_contains_returns(&clauses[i].block) {
                    proof { lemma_clauses_return_prefix(clauses@, i + 1); }
                    return true;
                }
                i = i + 1;
            }
            assert(clauses@.subrange(0, n as int) =~= clauses@);
            false
        },
        _ => false,
    }
}

proof fn lemma_clauses_return_prefix(cs: Seq<TryCatchClause>, k: int)
    requires
        0 <= k <= cs.len(),
        clauses_return(cs.subrange(0, k)),
    ensures
        clauses_return(cs),
    decreases cs.len() - k,
{
    if k < cs.len() {
        assert(cs.subrange(0, k + 1).subrange(0, k) =~= cs.subrange(0, k));
        lemma_clauses_return_prefix(cs, k + 1);
    } else {
        assert(cs.subrange(0, k) =~= cs);
    }
}

/// A return statement is a return.
pub proof fn lemma_return_returns(r: Return)
    ensures
        statement_returns(Statement::Return(r)),
{
}

/// Statements that hold no statement never return unless they are a
/// return: declarations, expressions, emits, reverts, inline assembly and
/// statements the walk does not know.
pub proof fn lemma_simple_statements_do_not_return(s: Statement)
    requires
        s is VariableDeclarationStatement || s is ExpressionStatement || s is EmitStatement || s is RevertStatement
            || s is InlineAssembly || s is UnhandledStatement,
    ensures
        !statement_returns(s),
{
}

/// A sequence of statements returns as soon as one of them does, wherever it
/// stands.
pub proof fn lemma_returns_anywhere(ss: Seq<Statement>, k: int)
    requires
        0 <= k < ss.len(),
        statement_returns(ss[k]),
    ensures
        statements_return(ss),
{
    assert(ss.subrange(0, k + 1).subrange(0, k) =~= ss.subrange(0, k));
    assert(ss.subrange(0, k + 1)[k] == ss[k]);
    assert(statements_return(ss.subrange(0, k + 1)));
    lemma_statements_return_prefix(ss, k + 1);
}

/// A sequence of statements none of which returns does not return.
pub proof fn lemma_returns_only_from_a_statement(ss: Seq<Statement>)
    requires
        statements_return(ss),
    ensures
        exists|k: int| 0 <= k < ss.len() && #[trigger] statement_returns(ss[k]),
    decreases ss.len(),
{
    if !statement_returns(ss[ss.len() - 1]) {
        lemma_returns_only_from_a_statement(ss.subrange(0, ss.len() - 1));
        let k = choose|k: int| 0 <= k < ss.len() - 1 && #[trigger] statement_returns(ss.subrange(0, ss.len() - 1)[k]);
        assert(ss.subrange(0, ss.len() - 1)[k] == ss[k]);
    }
}

/// An `if` statement returns exactly when its `true` branch or its `false`
/// branch, where it has one, returns, each a block that returns where one of
/// its statements does.
pub proof fn lemma_if_returns(i: IfStatement)
    ensures
        statement_returns(Statement::IfStatement(i)) <==> body_returns(i.true_body) || (i.false_body matches Some(b)
            && body_returns(b)),
        forall|b: Block, k: int|
            i.true_body == BlockOrStatement::Block(Box::new(b)) && 0 <= k < b.statements@.len() && statement_returns(
                #[trigger] b.statements@[k],
            ) ==> statement_returns(Statement::IfStatement(i)),
        forall|b: Block, k: int|
            i.false_body == Some(BlockOrStatement::Block(Box::new(b))) && 0 <= k < b.statements@.len() && statement_returns(
                #[trigger] b.statements@[k],
            ) ==> statement_returns(Statement::IfStatement(i)),
{
    assert forall|b: Block, k: int|
        i.true_body == BlockOrStatement::Block(Box::new(b)) && 0 <= k < b.statements@.len() && statement_returns(
            #[trigger] b.statements@[k],
        ) implies statement_returns(Statement::IfStatement(i)) by {
        lemma_returns_anywhere(b.statements@, k);
        assert(statements_return(b.statements@));
        assert(body_returns(BlockOrStatement::Block(Box::new(b))) == statements_return(b.statements@));
    }
    assert forall|b: Block, k: int|
        i.false_body == Some(BlockOrStatement::Block(Box::new(b))) && 0 <= k < b.statements@.len() && statement_returns(
            #[trigger] b.statements@[k],
        ) implies statement_returns(Statement::IfStatement(i)) by {
        lemma_returns_anywhere(b.statements@, k);
        assert(statements_return(b.statements@));
        assert(body_returns(BlockOrStatement::Block(Box::new(b))) == statements_return(b.statements@));
    }
}

/// A loop returns where its body returns; a `for` loop also where its
/// initialization or loop statement does.
pub proof fn lemma_loops_return(f: ForStatement, w: WhileStatement)
    ensures
        body_returns(f.body) ==> statement_returns(Statement::ForStatement(f)),
        (f.initialization_expression matches Some(x) && statement_returns(*x)) ==> statement_returns(Statement::ForStatement(f)),
        (f.loop_expression matches Some(x) && statement_returns(*x)) ==> statement_returns(Statement::ForStatement(f)),
        statement_returns(Statement::WhileStatement(w)) <==> body_returns(w.body),
{
}

/// An `unchecked` block or a `try` statement returns where one of its
/// statements, in any clause, does.
pub proof fn lemma_blocks_return(b: Block, cs: Seq<TryCatchClause>, k: int, j: int)
    ensures
        0 <= k < b.statements@.len() && statement_returns(b.statements@[k]) ==> statement_returns(Statement::UncheckedBlock(b)),
        0 <= k < cs.len() && 0 <= j < cs[k].block.statements@.len() && statement_returns(cs[k].block.statements@[j])
            ==> clauses_return(cs),
{
    if 0 <= k < b.statements@.len() && statement_returns(b.statements@[k]) {
        lemma_returns_anywhere(b.statements@, k);
    }
    if 0 <= k < cs.len() && 0 <= j < cs[k].block.statements@.len() && statement_returns(cs[k].block.statements@[j]) {
        lemma_returns_anywhere(cs[k].block.statements@, j);
        assert(cs.subrange(0, k + 1).subrange(0, k) =~= cs.subrange(0, k));
        assert(cs.subrange(0, k + 1)[k] == cs[k]);
        assert(clauses_return(cs.subrange(0, k + 1)));
        lemma_clauses_return_prefix(cs, k + 1);
    }
}

/// Whether `e` is an identifier with the name `n`.
pub open spec fn ident_named(e: Expression, n: Seq<char>) -> bool {
    e matches Expression::Identifier(i) && i.name@ == n
}

pub fn is_identifier_named(e: &Expression, n: &str) -> (r: bool)
    ensures
        r == ident_named(*e, n@),
{
    match e {
        Expression::Identifier(i) => crate::text::str_eq(i.name.as_str(), n),
        _ => false,
    }
}

/// Whether `e` names the elementary type `address`, as in `address(x)`.
pub open spec fn is_address_type(e: Expression) -> bool {
    e matches Expression::ElementaryTypeNameExpression(t) && t.ty matches TypeName::ElementaryTypeName { name }
        && name@ == "address"@
}

pub fn is_address_type_expression(e: &Expression) -> (r: bool)
    ensures
        r == is_address_type(*e),
{
    match e {
        Expression::ElementaryTypeNameExpression(t) => match &t.ty {
            TypeName::ElementaryTypeName { name } => crate::text::str_eq(name.as_str(), "address"),
            _ => false,
        },
        _ => false,
    }
}

/// The function or modifier a definition node is, by its identifier.
pub open spec fn definition_id(node: ContractDefinitionNode) -> Option<NodeId> {
    match node {
        ContractDefinitionNode::FunctionDefinition(f) => Some(f.info.id),
        ContractDefinitionNode::ModifierDefinition(m) => Some(m.info.id),
        _ => None,
    }
}

pub fn function_or_modifier_id(node: &ContractDefinitionNode) -> (r: Option<NodeId>)
    ensures
        r == definition_id(*node),
{
    match node {
        ContractDefinitionNode::FunctionDefinition(f) => Some(f.info.id),
        ContractDefinitionNode::ModifierDefinition(m) => Some(m.info.id),
        _ => None,
    }
}

/// A property of a function definition that a search can look for.
pub enum FunctionProperty {
    Payable,
    External,
}

pub open spec fn has_property(f: FunctionDefinition, p: FunctionProperty) -> bool {
    match p {
        FunctionProperty::Payable => f.state_mutability == StateMutability::Payable,
        FunctionProperty::External => f.visibility == Visibility::External,
    }
}

pub open spec fn is_function_with(units: Seq<SourceUnit>, i: int, j: int, k: int, id: NodeId, p: FunctionProperty) -> bool {
    function_at(units, i, j, k) matches Some(q) && q.1.info.id == id && has_property(q.1, p)
}

/// Whether some function with the identifier `id` has the property `p`.
pub open spec fn some_function_with(units: Seq<SourceUnit>, id: NodeId, p: FunctionProperty) -> bool {
    exists|i: int, j: int, k: int| #[trigger] is_function_with(units, i, j, k, id, p)
}

fn function_has_property(f: &FunctionDefinition, p: &FunctionProperty) -> (r: bool)
    ensures
        r == has_property(*f, *p),
{
    match p {
        FunctionProperty::Payable => f.state_mutability == StateMutability::Payable,
        FunctionProperty::External => f.visibility == Visibility::External,
    }
}

/// Whether a function with the identifier `id` has the property `p`.
pub fn function_with_property(units: &Vec<SourceUnit>, id: NodeId, p: FunctionProperty) -> (r: bool)
    ensures
        r == some_function_with(units@, id, p),
{
    let n = units.len();
    let mut i: usize = 0;
    while i < n
        invariant
            n == units@.len(),
            i <= n,
            forall|a: int, b: int, c: int| 0 <= a < i ==> !#[trigger] is_function_with(units@, a, b, c, id, p),
        decreases n - i,
    {
        let m = units[i].nodes.len();
        let mut j: usize = 0;
        while j < m
            invariant
                n == units@.len(),
                i < n,
                m == units@[i as int].nodes@.len(),
                j <= m,
                forall|a: int, b: int, c: int| 0 <= a < i ==> !#[trigger] is_function_with(units@, a, b, c, id, p),
                forall|b: int, c: int| 0 <= b < j ==> !#[trigger] is_function_with(units@, i as int, b, c, id, p),
            decreases m - j,
        {
            if let SourceUnitNode::ContractDefinition(cd) = &units[i].nodes[j] {
                assert(contract_at(units@, i as int, j as int) == Some(*cd));
                let q = cd.nodes.len();
                let mut k: usize = 0;
                while k < q
                    invariant
                        n == units@.len(),
                        i < n,
                        m == units@[i as int].nodes@.len(),
                        j < m,
                        contract_at(units@, i as int, j as int) == Some(*cd),
                        q == cd.nodes@.len(),
                        k <= q,
                        forall|a: int, b: int, c: int| 0 <= a < i ==> !#[trigger] is_function_with(units@, a, b, c, id, p),
                        forall|b: int, c: int| 0 <= b < j ==> !#[trigger] is_function_with(units@, i as int, b, c, id, p),
                        forall|c: int| 0 <= c < k ==> !#[trigger] is_function_with(units@, i as int, j as int, c, id, p),
                    decreases q - k,
                {
                    if let ContractDefinitionNode::FunctionDefinition(f) = &cd.nodes[k] {
                        if f.info.id == id && function_has_property(f, &p) {
                            assert(is_function_with(units@, i as int, j as int, k as int, id, p));
                            return true;
                        }
                    }
                    k = k + 1;
                }
                assert forall|c: int| !#[trigger] is_function_with(units@, i as int, j as int, c, id, p) by {
                    if !(0 <= c < q) {
                        assert(function_at(units@, i as int, j as int, c) is None);
                    }
                }
            } else {
                assert forall|c: int| !#[trigger] is_function_with(units@, i as int, j as int, c, id, p) by {
                    assert(contract_at(units@, i as int, j as int) is None);
                }
            }
            j = j + 1;
        }
        assert forall|a: int, b: int, c: int| 0 <= a < i + 1 implies !#[trigger] is_function_with(units@, a, b, c, id, p) by {
            if a == i && !(0 <= b < m) {
                assert(contract_at(units@, a, b) is None);
            }
        }
        i = i + 1;
    }
    false
}

/// The character view of an optional string.
pub open spec fn opt_view(o: Option<String>) -> Option<Seq<char>> {
    match o {
        Some(s) => Some(s@),
        None => None,
    }
}

pub fn opt_str_eq(a: &Option<String>, b: &Option<String>) -> (r: bool)
    ensures
        r == (opt_view(*a) == opt_view(*b)),
{
    match (a, b) {
        (Some(x), Some(y)) => crate::text::str_eq(x.as_str(), y.as_str()),
        (None, None) => true,
        _ => false,
    }
}

/// Whether two expressions are written the same: identifiers by name and
/// declaration, literals by value, member and index accesses by their parts.
/// Other expressions never compare the same.
pub open spec fn same_expr(a: Expression, b: Expression) -> bool
    decreases a,
{
    match (a, b) {
        (Expression::Identifier(x), Expression::Identifier(y)) => x.name@ == y.name@
            && x.referenced_declaration == y.referenced_declaration,
        (Expression::Literal(x), Expression::Literal(y)) => opt_view(x.value) == opt_view(y.value)
            && opt_view(x.hex_value) == opt_view(y.hex_value),
        (Expression::MemberAccess(x), Expression::MemberAccess(y)) => x.member_name@ == y.member_name@
            && x.referenced_declaration == y.referenced_declaration && same_expr(
            *x.expression,
            *y.expression,
        ),
        (Expression::IndexAccess(x), Expression::IndexAccess(y)) => same_expr(
            *x.base_expression,
            *y.base_expression,
        ) && match (x.index_expression, y.index_expression) {
            (Some(p), Some(q)) => same_expr(*p, *q),
            (None, None) => true,
            _ => false,
        },
        _ => false,
    }
}

pub fn same_expression(a: &Expression, b: &Expression) -> (r: bool)
    ensures
        r == same_expr(*a, *b),
    decreases a,
{
    match (a, b) {
        (Expression::Identifier(x), Expression::Identifier(y)) => crate::text::str_eq(
            x.name.as_str(),
            y.name.as_str(),
        ) && x.referenced_declaration == y.referenced_declaration,
        (Expression::Literal(x), Expression::Literal(y)) => opt_str_eq(&x.value, &y.value)
            && opt_str_eq(&x.hex_value, &y.hex_value),
        (Expression::MemberAccess(x), Expression::MemberAccess(y)) => crate::text::str_eq(
            x.member_name.as_str(),
            y.member_name.as_str(),
        ) && x.referenced_declaration == y.referenced_declaration && same_expression(
            &x.expression,
            &y.expression,
        ),
        (Expression::IndexAccess(x), Expression::IndexAccess(y)) => same_expression(
            &x.base_expression,
            &y.base_expression,
        ) && match (&x.index_expression, &y.index_expression) {
            (Some(p), Some(q)) => same_expression(p, q),
            (None, None) => true,
            _ => false,
        },
        _ => false,
    }
}

/// Whether two type names are written the same.
pub open spec fn same_type(a: TypeName, b: TypeName) -> bool
    decreases a,
{
    match (a, b) {
        (TypeName::ElementaryTypeName { name: x }, TypeName::ElementaryTypeName { name: y }) => x@ == y@,
        (
            TypeName::UserDefinedTypeName { referenced_declaration: x, name: nx },
            TypeName::UserDefinedTypeName { referenced_declaration: y, name: ny },
        ) => x == y && nx@ == ny@,
        (
            TypeName::ArrayTypeName { base_type: x, length: lx },
            TypeName::ArrayTypeName { base_type: y, length: ly },
        ) => same_type(*x, *y) && opt_view(lx) == opt_view(ly),
        (TypeName::FunctionTypeName, TypeName::FunctionTypeName) => true,
        (
            TypeName::Mapping { key_type: kx, value_type: vx },
            TypeName::Mapping { key_type: ky, value_type: vy },
        ) => same_type(*kx, *ky) && same_type(*vx, *vy),
        (TypeName::String(x), TypeName::String(y)) => x@ == y@,
        _ => false,
    }
}

pub fn same_type_name(a: &TypeName, b: &TypeName) -> (r: bool)
    ensures
        r == same_type(*a, *b),
    decreases a,
{
    match (a, b) {
        (TypeName::ElementaryTypeName { name: x }, TypeName::ElementaryTypeName { name: y }) => crate::text::str_eq(
            x.as_str(),
            y.as_str(),
        ),
        (
            TypeName::UserDefinedTypeName { referenced_declaration: x, name: nx },
            TypeName::UserDefinedTypeName { referenced_declaration: y, name: ny },
        ) => *x == *y && crate::text::str_eq(nx.as_str(), ny.as_str()),
        (
            TypeName::ArrayTypeName { base_type: x, length: lx },
            TypeName::ArrayTypeName { base_type: y, length: ly },
        ) => same_type_name(x, y) && opt_str_eq(lx, ly),
        (TypeName::FunctionTypeName, TypeName::FunctionTypeName) => true,
        (
            TypeName::Mapping { key_type: kx, value_type: vx },
            TypeName::Mapping { key_type: ky, value_type: vy },
        ) => same_type_name(kx, ky) && same_type_name(vx, vy),
        (TypeName::String(x), TypeName::String(y)) => crate::text::str_eq(x.as_str(), y.as_str()),
        _ => false,
    }
}

/// Whether `id` occurs in `v`.
pub fn contains_id(v: &Vec<NodeId>, id: NodeId) -> (r: bool)
    ensures
        r == v@.contains(id),
{
    let mut k: usize = 0;
    while k < v.len()
        invariant
            k <= v@.len(),
            forall|j: int| 0 <= j < k ==> v@[j] != id,
        decreases v@.len() - k,
    {
        if v[k] == id {
            return true;
        }
        k = k + 1;
    }
    false
}

/// Whether two lists of identifiers are equal.
pub fn ids_eq(a: &Vec<NodeId>, b: &Vec<NodeId>) -> (r: bool)
    ensures
        r == (a@ == b@),
{
    if a.len() != b.len() {
        return false;
    }
    let mut k: usize = 0;
    while k < a.len()
        invariant
            a@.len() == b@.len(),
            k <= a@.len(),
            forall|j: int| 0 <= j < k ==> a@[j] == b@[j],
        decreases a@.len() - k,
    {
        if a[k] != b[k] {
            return false;
        }
        k = k + 1;
    }
    assert(a@ =~= b@);
    true
}

} // verus!
