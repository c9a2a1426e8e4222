//! Function parameters named like a visible state variable of the contract's
//! hierarchy.
use vstd::prelude::*;
use crate::analysis::{DefCtx, Output};
use crate::ast::{
    Block, BlockOrStatement, ContractDefinition, ContractDefinitionNode, FunctionDefinition, NodeId, SourceUnit, Statement,
    StorageLocation, TryCatchClause, VariableDeclaration, Visibility,
};
use crate::query::{find_contract, first_contract};
use crate::render::{debug_visibility, debug_visibility_text, function_kind_str, function_kind_text, qualified, qualify};
use crate::text::str_eq;

verus! {


pub open spec fn lower_visibility_text(v: Visibility) -> Seq<char> {
    match v {
        Visibility::Public => "public"@,
        Visibility::Private => "private"@,
        Visibility::Internal => "internal"@,
        Visibility::External => "external"@,
    }
}

pub open spec fn storage_text(l: StorageLocation) -> Seq<char> {
    match l {
        StorageLocation::Default => "default"@,
        StorageLocation::Memory => "memory"@,
        StorageLocation::Storage => "storage"@,
        StorageLocation::Calldata => "calldata"@,
    }
}

fn lower_visibility(v: Visibility) -> (r: &'static str)
    ensures
        r@ == lower_visibility_text(v),
{
    match v {
        Visibility::Public => "public",
        Visibility::Private => "private",
        Visibility::Internal => "internal",
        Visibility::External => "external",
    }
}

fn storage_str(l: StorageLocation) -> (r: &'static str)
    ensures
        r@ == storage_text(l),
{
    match l {
        StorageLocation::Default => "default",
        StorageLocation::Memory => "memory",
        StorageLocation::Storage => "storage",
        StorageLocation::Calldata => "calldata",
    }
}


/// The declared variables of a declaration statement, in order.
pub open spec fn declared(ds: Seq<Option<VariableDeclaration>>) -> Seq<VariableDeclaration>
    decreases ds.len(),
{
    if ds.len() == 0 {
        Seq::empty()
    } else {
        declared(ds.drop_last()) + match ds.last() {
            Some(v) => seq![v],
            None => Seq::empty(),
        }
    }
}

/// The local variables declared anywhere in `s`, in the order of the source.
pub open spec fn statement_locals(s: Statement) -> Seq<VariableDeclaration>
    decreases s,
{
    match s {
        Statement::VariableDeclarationStatement(d) => declared(d.declarations@),
        Statement::IfStatement(i) => body_locals(i.true_body) + match i.false_body {
            Some(b) => body_locals(b),
            None => Seq::empty(),
        },
        Statement::ForStatement(f) => (match f.initialization_expression {
            Some(x) => statement_locals(*x),
            None => Seq::empty(),
        }) + (match f.loop_expression {
            Some(x) => statement_locals(*x),
            None => Seq::empty(),
        }) + body_locals(f.body),
        Statement::WhileStatement(w) => body_locals(w.body),
        Statement::UncheckedBlock(b) => statements_locals(b.statements@),
        Statement::TryStatement { clauses, .. } => clauses_locals(clauses@),
        _ => Seq::empty(),
    }
}

pub open spec fn body_locals(b: BlockOrStatement) -> Seq<VariableDeclaration>
    decreases b,
{
    match b {
        BlockOrStatement::Block(b) => statements_locals(b.statements@),
        BlockOrStatement::Statement(s) => statement_locals(*s),
    }
}

pub open spec fn statements_locals(ss: Seq<Statement>) -> Seq<VariableDeclaration>
    decreases ss,
{
    if ss.len() == 0 {
        Seq::empty()
    } else {
        statements_locals(ss.subrange(0, ss.len() - 1)) + statement_locals(ss[ss.len() - 1])
    }
}

pub open spec fn clauses_locals(cs: Seq<TryCatchClause>) -> Seq<VariableDeclaration>
    decreases cs,
{
    if cs.len() == 0 {
        Seq::empty()
    } else {
        clauses_locals(cs.subrange(0, cs.len() - 1)) + statements_locals(cs[cs.len() - 1].block.statements@)
    }
}

/// The variables a function declares: its parameters (marked `true`), then
/// the local variables of its body (marked `false`).
pub open spec fn function_variables(f: FunctionDefinition) -> Seq<(VariableDeclaration, bool)> {
    f.parameters@.map_values(|p: VariableDeclaration| (p, true)) + match f.body {
        Some(b) => statements_locals(b.statements@).map_values(|v: VariableDeclaration| (v, false)),
        None => Seq::empty(),
    }
}

/// The declarations a sequence of references points to.
pub open spec fn derefs(s: Seq<&VariableDeclaration>) -> Seq<VariableDeclaration> {
    s.map_values(|x: &VariableDeclaration| *x)
}

/// The marked declarations a sequence of marked references points to.
pub open spec fn pairs(s: Seq<(&VariableDeclaration, bool)>) -> Seq<(VariableDeclaration, bool)> {
    s.map_values(|x: (&VariableDeclaration, bool)| (*x.0, x.1))
}

fn push_block_locals<'a>(b: &'a Block, out: &mut Vec<&'a VariableDeclaration>)
    ensures
        derefs(final(out)@) == derefs(old(out)@) + statements_locals(b.statements@),
    decreases b,
{
    let n = b.statements.len();
    let mut i: usize = 0;
    let ghost start = derefs(out@);
    assert(b.statements@.subrange(0, 0) =~= Seq::<Statement>::empty());
    assert(start + Seq::<VariableDeclaration>::empty() =~= start);
    while i < n
        invariant
            n == b.statements@.len(),
            i <= n,
            derefs(out@) == start + statements_locals(b.statements@.subrange(0, i as int)),
        decreases n - i,
    {
        assert(b.statements@.subrange(0, i + 1).subrange(0, i as int) =~= b.statements@.subrange(0, i as int));
        proof {
            assert(decreases_to!(b.statements => b.statements@));
            assert(decreases_to!(b.statements@ => b.statements@[i as int]));
        }
        push_statement_locals(&b.statements[i], out);
        assert(derefs(out@) =~= start + statements_locals(b.statements@.subrange(0, i + 1)));
        i = i + 1;
    }
    assert(b.statements@.subrange(0, n as int) =~= b.statements@);
}

fn push_body_locals<'a>(b: &'a BlockOrStatement, out: &mut Vec<&'a VariableDeclaration>)
    ensures
        derefs(final(out)@) == derefs(old(out)@) + body_locals(*b),
    decreases b,
{
    match b {
        BlockOrStatement::Block(blk) => push_block_locals(blk, out),
        BlockOrStatement::Statement(st) => push_statement_locals(st, out),
    }
}

fn push_statement_locals<'a>(s: &'a Statement, out: &mut Vec<&'a VariableDeclaration>)
    ensures
        derefs(final(out)@) == derefs(old(out)@) + statement_locals(*s),
    decreases s,
{
    match s {
        Statement::VariableDeclarationStatement(d) => {
            let n = d.declarations.len();
            let mut i: usize = 0;
            let ghost start = derefs(out@);
            assert(d.declarations@.take(0) =~= Seq::<Option<VariableDeclaration>>::empty());
            assert(start + Seq::<VariableDeclaration>::empty() =~= start);
            while i < n
                invariant
                    n == d.declarations@.len(),
                    i <= n,
                    derefs(out@) == start + declared(d.declarations@.take(i as int)),
                decreases n - i,
            {
                assert(d.declarations@.take(i + 1).drop_last() =~= d.declarations@.take(i as int));
                assert(d.declarations@.take(i + 1).last() == d.declarations@[i as int]);
                let ghost prev = out@;
                match &d.declarations[i] {
                    Some(v) => {
                        out.push(v);
                        assert(derefs(out@) =~= derefs(prev).push(*v));
                    },
                    None => {},
                }
                assert(derefs(out@) =~= start + declared(d.declarations@.take(i + 1)));
                i = i + 1;
            }
            assert(d.declarations@.take(n as int) =~= d.declarations@);
        },
        Statement::IfStatement(st) => {
            push_body_locals(&st.true_body, out);
            match &st.false_body {
                Some(fb) => push_body_locals(fb, out),
                None => {},
            }
            assert(derefs(out@) =~= derefs(old(out)@) + statement_locals(*s));
        },
        Statement::ForStatement(st) => {
            match &st.initialization_expression {
                Some(x) => push_statement_locals(x, out),
                None => {},
            }
            match &st.loop_expression {
                Some(x) => push_statement_locals(x, out),
                None => {},
            }
            push_body_locals(&st.body, out);
            assert(derefs(out@) =~= derefs(old(out)@) + statement_locals(*s));
        },
        Statement::WhileStatement(st) => push_body_locals(&st.body, out),
        Statement::UncheckedBlock(b) => push_block_locals(b, out),
        Statement::TryStatement { clauses, .. } => {
            let n = clauses.len();
            let mut i: usize = 0;
            let ghost start = derefs(out@);
            assert(clauses@.subrange(0, 0) =~= Seq::<TryCatchClause>::empty());
            assert(start + Seq::<VariableDeclaration>::empty() =~= start);
            while i < n
                invariant
                    n == clauses@.len(),
                    i <= n,
                    s is TryStatement && s->clauses == *clauses,
                    derefs(out@) == start + clauses_locals(clauses@.subrange(0, i as int)),
                decreases n - i,
            {
                assert(clauses@.subrange(0, i + 1).subrange(0, i as int) =~= clauses@.subrange(0, i as int));
                proof {
                    assert(decreases_to!(*s => s->clauses));
                    assert(decreases_to!(*clauses => clauses@));
                    assert(decreases_to!(clauses@ => clauses@[i as int]));
                    assert(decreases_to!(clauses@[i as int] => clauses@[i as int].block));
                }
                push_block_locals(&clauses[i].block, out);
                assert(derefs(out@) =~= start + clauses_locals(clauses@.subrange(0, i + 1)));
                i = i + 1;
            }
            assert(clauses@.subrange(0, n as int) =~= clauses@);
        },
        _ => {
            assert(derefs(out@) =~= derefs(old(out)@) + statement_locals(*s));
        },
    }
}

/// The variables of `f` as `function_variables` lists them.
fn collect_variables(f: &FunctionDefinition) -> (r: Vec<(&VariableDeclaration, bool)>)
    ensures
        pairs(r@) == function_variables(*f),
{
    let mut r: Vec<(&VariableDeclaration, bool)> = Vec::new();
    let n = f.parameters.len();
    let mut i: usize = 0;
    while i < n
        invariant
            n == f.parameters@.len(),
            i <= n,
            pairs(r@) == f.parameters@.take(i as int).map_values(|p: VariableDeclaration| (p, true)),
        decreases n - i,
    {
        let ghost prev = r@;
        r.push((&f.parameters[i], true));
        assert(pairs(r@) =~= pairs(prev).push((f.parameters@[i as int], true)));
        assert(pairs(r@) =~= f.parameters@.take(i + 1).map_values(|p: VariableDeclaration| (p, true)));
        i = i + 1;
    }
    assert(f.parameters@.take(n as int) =~= f.parameters@);
    let mut locals: Vec<&VariableDeclaration> = Vec::new();
    match &f.body {
        Some(b) => push_block_locals(b, &mut locals),
        None => {},
    }
        let m = locals.len();
    let mut j: usize = 0;
    let ghost params = pairs(r@);
    while j < m
        invariant
            m == locals@.len(),
            j <= m,
            pairs(r@) == params + derefs(locals@).take(j as int).map_values(|v: VariableDeclaration| (v, false)),
        decreases m - j,
    {
        let ghost prev = r@;
        r.push((locals[j], false));
        assert(pairs(r@) =~= pairs(prev).push((derefs(locals@)[j as int], false)));
        assert(pairs(r@) =~= params + derefs(locals@).take(j + 1).map_values(|v: VariableDeclaration| (v, false)));
        j = j + 1;
    }
    assert(derefs(locals@).take(m as int) =~= derefs(locals@));
    assert(pairs(r@) =~= function_variables(*f));
    r
}

/// A parameter or local variable shadows a state variable that is not
/// private and has its name, where the compiler gave both a type.
pub open spec fn shadows(p: VariableDeclaration, v: VariableDeclaration) -> bool {
    &&& v.visibility != Visibility::Private
    &&& v.name@ == p.name@
    &&& p.info.type_string is Some
    &&& v.info.type_string is Some
}

/// What a variable of a function is called in a finding.
pub open spec fn variable_word(is_parameter: bool) -> Seq<char> {
    if is_parameter {
        " parameter '"@
    } else {
        " local variable '"@
    }
}

/// The line printed for variable `p` of `f` (in contract `c`; a parameter
/// where `is_parameter`) shadowing the state variable `v` of contract `b`.
pub open spec fn shadow_line(
    c: ContractDefinition,
    f: FunctionDefinition,
    p: VariableDeclaration,
    is_parameter: bool,
    v: VariableDeclaration,
    b: ContractDefinition,
) -> Seq<char> {
    "\t"@ + debug_visibility_text(f.visibility) + " "@ + qualified(c.name@, f.name@) + " "@
        + function_kind_text(f.kind) + " has a "@ + p.info.type_string->Some_0@ + " "@ + storage_text(
        p.storage_location,
    ) + variable_word(is_parameter) + p.name@ + "' which shadows the "@ + lower_visibility_text(v.visibility)
        + " "@ + v.info.type_string->Some_0@ + " "@ + qualified(b.name@, v.name@) + " state variable"@
}

/// The lines for variable `p` against the nodes `nodes` of contract `b`.
pub open spec fn variable_lines(
    c: ContractDefinition,
    f: FunctionDefinition,
    p: (VariableDeclaration, bool),
    b: ContractDefinition,
    nodes: Seq<ContractDefinitionNode>,
) -> Seq<Seq<char>>
    decreases nodes.len(),
{
    if nodes.len() == 0 {
        Seq::empty()
    } else {
        variable_lines(c, f, p, b, nodes.drop_last()) + match nodes.last() {
            ContractDefinitionNode::VariableDeclaration(v) => if shadows(p.0, v) {
                seq![shadow_line(c, f, p.0, p.1, v, b)]
            } else {
                Seq::empty()
            },
            _ => Seq::empty(),
        }
    }
}

/// The lines for the variables `params` against the state variables of `b`.
pub open spec fn parameter_lines(
    c: ContractDefinition,
    f: FunctionDefinition,
    params: Seq<(VariableDeclaration, bool)>,
    b: ContractDefinition,
) -> Seq<Seq<char>>
    decreases params.len(),
{
    if params.len() == 0 {
        Seq::empty()
    } else {
        parameter_lines(c, f, params.drop_last(), b) + variable_lines(c, f, params.last(), b, b.nodes@)
    }
}

pub open spec fn base_lines(
    units: Seq<SourceUnit>,
    c: ContractDefinition,
    f: FunctionDefinition,
    bases: Seq<NodeId>,
) -> Seq<Seq<char>>
    decreases bases.len(),
{
    if bases.len() == 0 {
        Seq::empty()
    } else {
        base_lines(units, c, f, bases.drop_last()) + match first_contract(units, bases.last()) {
            Some(b) => parameter_lines(c, f, function_variables(f), b),
            None => Seq::empty(),
        }
    }
}

/// Every line the analysis prints for `f` of `c`: for each base contract (in
/// linearized order), each parameter and then each local variable of `f`, and
/// each state variable of the base, the line for a shadowing pair.
pub open spec fn shadowing_lines(units: Seq<SourceUnit>, c: ContractDefinition, f: FunctionDefinition) -> Seq<Seq<char>> {
    match c.linearized_base_contracts {
        Some(v) => base_lines(units, c, f, v@),
        None => Seq::empty(),
    }
}

pub open spec fn texts(v: Seq<String>) -> Seq<Seq<char>> {
    v.map_values(|s: String| s@)
}

fn push_line(out: &mut Vec<String>, s: String)
    ensures
        texts(final(out)@) == texts(old(out)@).push(s@),
        final(out)@ == old(out)@.push(s),
{
    out.push(s);
    assert(texts(out@) =~= texts(old(out)@).push(s@));
}

pub struct StateVariableShadowingVisitor {}

impl StateVariableShadowingVisitor {
    pub fn new() -> Self {
        StateVariableShadowingVisitor {}
    }

    fn check_base(
        c: &ContractDefinition,
        f: &FunctionDefinition,
        vars: &Vec<(&VariableDeclaration, bool)>,
        b: &ContractDefinition,
        lines: &mut Vec<String>,
    )
        ensures
            texts(final(lines)@) == texts(old(lines)@) + parameter_lines(*c, *f, pairs(vars@), *b),
            old(lines)@.is_prefix_of(final(lines)@),
    {
        let ghost orig = lines@;
        let np = vars.len();
        let mut i: usize = 0;
        let ghost start = texts(lines@);
        assert(pairs(vars@).take(0) =~= Seq::<(VariableDeclaration, bool)>::empty());
        assert(start + Seq::<Seq<char>>::empty() =~= start);
        while i < np
            invariant
                np == vars@.len(),
                i <= np,
                texts(lines@) == start + parameter_lines(*c, *f, pairs(vars@).take(i as int), *b),
                orig.is_prefix_of(lines@),
            decreases np - i,
        {
            let p = vars[i].0;
            let is_parameter = vars[i].1;
            let ghost pv = pairs(vars@)[i as int];
            assert(pv == (*p, is_parameter));
            let nv = b.nodes.len();
            let mut j: usize = 0;
            let ghost mid = texts(lines@);
            assert(b.nodes@.take(0) =~= Seq::<ContractDefinitionNode>::empty());
            assert(mid + Seq::<Seq<char>>::empty() =~= mid);
            while j < nv
                invariant
                    nv == b.nodes@.len(),
                    j <= nv,
                    texts(lines@) == mid + variable_lines(*c, *f, pv, *b, b.nodes@.take(j as int)),
                    pv == (*p, is_parameter),
                    orig.is_prefix_of(lines@),
                decreases nv - j,
            {
                let ghost before = texts(lines@);
                assert(b.nodes@.take(j + 1).drop_last() =~= b.nodes@.take(j as int));
                assert(b.nodes@.take(j + 1).last() == b.nodes@[j as int]);
                if let ContractDefinitionNode::VariableDeclaration(v) = &b.nodes[j] {
                    if v.visibility != Visibility::Private && str_eq(v.name.as_str(), p.name.as_str()) {
                        if let (Some(pt), Some(vt)) = (&p.info.type_string, &v.info.type_string) {
                            let line = String::from_str("\t").concat(debug_visibility(f.visibility)).concat(" ").concat(
                                qualify(&c.name, &f.name).as_str(),
                            ).concat(" ").concat(function_kind_str(f.kind)).concat(" has a ").concat(pt.as_str()).concat(
                                " ",
                            ).concat(storage_str(p.storage_location)).concat(
                                if is_parameter {
                                    " parameter '"
                                } else {
                                    " local variable '"
                                },
                            ).concat(p.name.as_str()).concat(
                                "' which shadows the ",
                            ).concat(lower_visibility(v.visibility)).concat(" ").concat(vt.as_str()).concat(" ").concat(
                                qualify(&b.name, &v.name).as_str(),
                            ).concat(" state variable");
                            assert(line@ =~= shadow_line(*c, *f, *p, is_parameter, *v, *b));
                            let ghost pre = lines@;
                            push_line(lines, line);
                            assert(lines@.subrange(0, orig.len() as int) =~= pre.subrange(0, orig.len() as int));
                            assert(texts(lines@) =~= mid + variable_lines(*c, *f, pv, *b, b.nodes@.take(j + 1)));
                        } else {
                            assert(before + Seq::<Seq<char>>::empty() =~= before);
                        }
                    } else {
                        assert(before + Seq::<Seq<char>>::empty() =~= before);
                    }
                } else {
                    assert(before + Seq::<Seq<char>>::empty() =~= before);
                }
                assert(texts(lines@) =~= mid + variable_lines(*c, *f, pv, *b, b.nodes@.take(j + 1)));
                j = j + 1;
            }
            assert(b.nodes@.take(nv as int) =~= b.nodes@);
            assert(pairs(vars@).take(i + 1).drop_last() =~= pairs(vars@).take(i as int));
            assert(pairs(vars@).take(i + 1).last() == pv);
            assert(texts(lines@) =~= start + parameter_lines(*c, *f, pairs(vars@).take(i + 1), *b));
            i = i + 1;
        }
        assert(pairs(vars@).take(np as int) =~= pairs(vars@));
    }

    /// Prints a line for each parameter and each local variable of `f` that
    /// shadows a state variable of a contract in the hierarchy of the contract
    /// being walked.
    pub fn visit_function_definition(&mut self, ctx: &DefCtx, f: &FunctionDefinition, out: &mut Output)
        requires
            old(out).wf(),
        ensures
            final(out).wf(),
            old(out).extends(*final(out)),
            final(out).report == old(out).report,
            texts(final(out).printed@) == texts(old(out).printed@) + shadowing_lines(ctx.units@, *ctx.contract, *f),
    {
        let bases = match &ctx.contract.linearized_base_contracts {
            Some(b) => b,
            None => {
                assert(texts(out.printed@) =~= texts(out.printed@) + Seq::<Seq<char>>::empty());
                return;
            },
        };
        let vars = collect_variables(f);
        let ghost start = texts(out.printed@);
        let n = bases.len();
        let mut k: usize = 0;
        assert(bases@.take(0) =~= Seq::<NodeId>::empty());
        assert(start + Seq::<Seq<char>>::empty() =~= start);
        while k < n
            invariant
                ctx.contract.linearized_base_contracts == Some(*bases),
                pairs(vars@) == function_variables(*f),
                n == bases@.len(),
                k <= n,
                out.wf(),
                old(out).extends(*out),
                out.report == old(out).report,
                old(out).printed@.is_prefix_of(out.printed@),
                texts(out.printed@) == start + base_lines(ctx.units@, *ctx.contract, *f, bases@.take(k as int)),
            decreases n - k,
        {
            assert(bases@.take(k + 1).drop_last() =~= bases@.take(k as int));
            assert(bases@.take(k + 1).last() == bases@[k as int]);
            let ghost before = texts(out.printed@);
            match find_contract(ctx.units, bases[k]) {
                Some(b) => {
                    Self::check_base(ctx.contract, f, &vars, b, &mut out.printed);
                },
                None => {
                    assert(before + Seq::<Seq<char>>::empty() =~= before);
                },
            }
            assert(texts(out.printed@) =~= start + base_lines(ctx.units@, *ctx.contract, *f, bases@.take(k + 1)));
            proof { Output::lemma_extends_printed(*old(out), *out); }
            k = k + 1;
        }
        assert(bases@.take(n as int) =~= bases@);
    }
}

} // verus!
