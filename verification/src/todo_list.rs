//! The review checklist: for each contract that is not an interface, a
//! Markdown section listing its enums, structs, state variables, modifiers
//! and implemented functions, each as an unchecked box.
use vstd::prelude::*;
use crate::ast::{
    ContractDefinition, ContractDefinitionNode, ContractKind, FunctionDefinition, ModifierDefinition,
    ModifierInvocation, SourceUnit, SourceUnitNode, StateMutability, VariableDeclaration, Visibility,
};
use crate::render::{
    contract_kind_str, contract_kind_text, function_kind_str, function_kind_text, node_text, spec_node_text,
    visibility_str, visibility_text,
};

verus! {

/// The texts of a list of strings.
pub open spec fn texts(v: Seq<String>) -> Seq<Seq<char>> {
    v.map_values(|s: String| s@)
}

/// A declaration as written in the source.
pub open spec fn decl_text(u: SourceUnit, v: VariableDeclaration) -> Seq<char> {
    spec_node_text(u, v.info.src@)
}

/// Declarations as written, separated by `, `.
pub open spec fn decls_text(u: SourceUnit, ps: Seq<VariableDeclaration>) -> Seq<char>
    decreases ps.len(),
{
    if ps.len() == 0 {
        Seq::empty()
    } else if ps.len() == 1 {
        decl_text(u, ps[0])
    } else {
        decls_text(u, ps.drop_last()) + ", "@ + decl_text(u, ps.last())
    }
}

/// A parameter list: `(` the parameters `)`.
pub open spec fn params_text(u: SourceUnit, ps: Seq<VariableDeclaration>) -> Seq<char> {
    "("@ + decls_text(u, ps) + ")"@
}

/// Names separated by `, `.
pub open spec fn names_text(ns: Seq<String>) -> Seq<char>
    decreases ns.len(),
{
    if ns.len() == 0 {
        Seq::empty()
    } else if ns.len() == 1 {
        ns[0]@
    } else {
        names_text(ns.drop_last()) + ", "@ + ns.last()@
    }
}

/// ` override`, or ` override(A, B)` where contracts are named; nothing
/// where there is no specifier.
pub open spec fn overrides_text(o: Option<Vec<String>>) -> Seq<char> {
    match o {
        None => Seq::empty(),
        Some(ns) => if ns@.len() == 0 {
            " override"@
        } else {
            " override("@ + names_text(ns@) + ")"@
        },
    }
}

pub open spec fn virtual_text(v: Option<bool>) -> Seq<char> {
    if v == Some(true) {
        " virtual"@
    } else {
        Seq::empty()
    }
}

pub open spec fn mutability_text(m: StateMutability) -> Seq<char> {
    match m {
        StateMutability::Pure => "pure"@,
        StateMutability::View => "view"@,
        StateMutability::NonPayable => "nonpayable"@,
        StateMutability::Payable => "payable"@,
    }
}

/// A name after a space, or nothing for an empty name.
pub open spec fn name_part(n: Seq<char>) -> Seq<char> {
    if n.len() > 0 {
        " "@ + n
    } else {
        Seq::empty()
    }
}

/// The modifier invocations as written, each after a space.
pub open spec fn invocations_text(u: SourceUnit, ms: Seq<ModifierInvocation>) -> Seq<char>
    decreases ms.len(),
{
    if ms.len() == 0 {
        Seq::empty()
    } else {
        invocations_text(u, ms.drop_last()) + " "@ + spec_node_text(u, ms.last().info.src@)
    }
}

/// The line of a modifier. The parameter list is written a second time,
/// before the visibility, where the visibility is not `internal`.
pub open spec fn modifier_line(u: SourceUnit, m: ModifierDefinition) -> Seq<char> {
    "- [ ] `modifier"@ + name_part(m.name@) + params_text(u, m.parameters@) + (if m.visibility
        != Visibility::Internal {
        params_text(u, m.parameters@) + " "@ + visibility_text(m.visibility)
    } else {
        Seq::empty()
    }) + virtual_text(m.is_virtual) + overrides_text(m.overrides) + "`"@
}

/// The line of a function.
pub open spec fn function_line(u: SourceUnit, f: FunctionDefinition) -> Seq<char> {
    "- [ ] `"@ + function_kind_text(f.kind) + name_part(f.name@) + params_text(u, f.parameters@) + " "@
        + visibility_text(f.visibility) + (if f.state_mutability != StateMutability::NonPayable {
        " "@ + mutability_text(f.state_mutability)
    } else {
        Seq::empty()
    }) + virtual_text(f.is_virtual) + overrides_text(f.overrides) + invocations_text(u, f.modifiers@) + (
    if f.return_parameters@.len() > 0 {
        " returns "@ + params_text(u, f.return_parameters@)
    } else {
        Seq::empty()
    }) + "`"@
}

/// The line a definition gives in section `sel` (0 enums, 1 structs,
/// 2 variables, 3 modifiers, 4 functions with a body), if any.
pub open spec fn item_line(u: SourceUnit, sel: u8, n: ContractDefinitionNode) -> Option<Seq<char>> {
    match n {
        ContractDefinitionNode::EnumDefinition(e) => if sel == 0 {
            Some("- [ ] `enum "@ + e.name@ + "`"@)
        } else {
            None
        },
        ContractDefinitionNode::StructDefinition(s) => if sel == 1 {
            Some("- [ ] `struct "@ + s.name@ + "`"@)
        } else {
            None
        },
        ContractDefinitionNode::VariableDeclaration(v) => if sel == 2 {
            Some("- [ ] `"@ + decl_text(u, v) + "`"@)
        } else {
            None
        },
        ContractDefinitionNode::ModifierDefinition(m) => if sel == 3 {
            Some(modifier_line(u, m))
        } else {
            None
        },
        ContractDefinitionNode::FunctionDefinition(f) => if sel == 4 && f.body is Some {
            Some(function_line(u, f))
        } else {
            None
        },
        _ => None,
    }
}

/// The lines of section `sel` for the definitions `ns`, in order.
pub open spec fn section_items(u: SourceUnit, sel: u8, ns: Seq<ContractDefinitionNode>) -> Seq<Seq<char>>
    decreases ns.len(),
{
    if ns.len() == 0 {
        Seq::empty()
    } else {
        section_items(u, sel, ns.drop_last()) + match item_line(u, sel, ns.last()) {
            Some(l) => seq![l],
            None => Seq::empty(),
        }
    }
}

pub open spec fn section_title(sel: u8) -> Seq<char> {
    if sel == 0 {
        "#### Enums:"@
    } else if sel == 1 {
        "#### Structs:"@
    } else if sel == 2 {
        "#### Variables:"@
    } else if sel == 3 {
        "#### Modifiers:"@
    } else {
        "#### Functions:"@
    }
}

/// A section: an empty line, its title and its items; nothing where it has
/// no items.
pub open spec fn section(u: SourceUnit, sel: u8, c: ContractDefinition) -> Seq<Seq<char>> {
    let items = section_items(u, sel, c.nodes@);
    if items.len() == 0 {
        Seq::empty()
    } else {
        seq![Seq::empty(), section_title(sel)] + items
    }
}

pub open spec fn contract_header(c: ContractDefinition) -> Seq<char> {
    "### `"@ + (if c.is_abstract == Some(true) {
        "abstract "@
    } else {
        Seq::empty()
    }) + contract_kind_text(c.kind) + " "@ + c.name@ + "`:"@
}

/// The lines of a contract: none for an interface; else its header, its
/// five sections and an empty line.
pub open spec fn contract_lines(u: SourceUnit, c: ContractDefinition) -> Seq<Seq<char>> {
    if c.kind == ContractKind::Interface {
        Seq::empty()
    } else {
        seq![contract_header(c)] + section(u, 0, c) + section(u, 1, c) + section(u, 2, c) + section(u, 3, c)
            + section(u, 4, c) + seq![Seq::empty()]
    }
}

/// The lines of the contracts among the top-level nodes `ns` of `u`.
pub open spec fn contracts_lines(u: SourceUnit, ns: Seq<SourceUnitNode>) -> Seq<Seq<char>>
    decreases ns.len(),
{
    if ns.len() == 0 {
        Seq::empty()
    } else {
        contracts_lines(u, ns.drop_last()) + match ns.last() {
            SourceUnitNode::ContractDefinition(c) => contract_lines(u, c),
            _ => Seq::empty(),
        }
    }
}

/// The lines of a source unit: its contracts', then `---` and an empty line.
pub open spec fn unit_lines(u: SourceUnit) -> Seq<Seq<char>> {
    contracts_lines(u, u.nodes@) + seq!["---"@, Seq::empty()]
}

/// The checklist of the source units `us`, in order.
pub open spec fn checklist(us: Seq<SourceUnit>) -> Seq<Seq<char>>
    decreases us.len(),
{
    if us.len() == 0 {
        Seq::empty()
    } else {
        checklist(us.drop_last()) + unit_lines(us.last())
    }
}

fn push_all(out: &mut Vec<String>, more: Vec<String>)
    ensures
        texts(final(out)@) == texts(old(out)@) + texts(more@),
{
    let ghost start = texts(out@);
    let mut i: usize = 0;
    while i < more.len()
        invariant
            i <= more@.len(),
            texts(out@) == start + texts(more@).take(i as int),
        decreases more@.len() - i,
    {
        let ghost before = out@;
        out.push(more[i].clone());
        assert(texts(out@) =~= texts(before) + seq![more@[i as int]@]);
        assert(texts(more@).take(i + 1) =~= texts(more@).take(i as int).push(more@[i as int]@));
        i = i + 1;
    }
    assert(texts(more@).take(more@.len() as int) =~= texts(more@));
}

fn decls_string(u: &SourceUnit, ps: &Vec<VariableDeclaration>) -> (r: String)
    ensures
        r@ == decls_text(*u, ps@),
{
    let mut out = String::new();
    let mut i: usize = 0;
    assert(ps@.take(0) =~= Seq::<VariableDeclaration>::empty());
    while i < ps.len()
        invariant
            i <= ps@.len(),
            out@ == decls_text(*u, ps@.take(i as int)),
        decreases ps@.len() - i,
    {
        assert(ps@.take(i + 1).drop_last() =~= ps@.take(i as int));
        assert(ps@.take(i + 1).last() == ps@[i as int]);
        if i > 0 {
            out.append(", ");
        }
        let t = node_text(u, ps[i].info.src.as_str());
        out.append(t.as_str());
        proof {
            if i == 0 {
                assert(ps@.take(1)[0] == ps@[0]);
                assert(out@ =~= decls_text(*u, ps@.take(1)));
            }
        }
        i = i + 1;
    }
    assert(ps@.take(ps@.len() as int) =~= ps@);
    out
}

fn params_string(u: &SourceUnit, ps: &Vec<VariableDeclaration>) -> (r: String)
    ensures
        r@ == params_text(*u, ps@),
{
    String::from_str("(").concat(decls_string(u, ps).as_str()).concat(")")
}

fn names_string(ns: &Vec<String>) -> (r: String)
    ensures
        r@ == names_text(ns@),
{
    let mut out = String::new();
    let mut i: usize = 0;
    assert(ns@.take(0) =~= Seq::<String>::empty());
    while i < ns.len()
        invariant
            i <= ns@.len(),
            out@ == names_text(ns@.take(i as int)),
        decreases ns@.len() - i,
    {
        assert(ns@.take(i + 1).drop_last() =~= ns@.take(i as int));
        assert(ns@.take(i + 1).last() == ns@[i as int]);
        if i > 0 {
            out.append(", ");
        }
        out.append(ns[i].as_str());
        proof {
            if i == 0 {
                assert(ns@.take(1)[0] == ns@[0]);
                assert(out@ =~= names_text(ns@.take(1)));
            }
        }
        i = i + 1;
    }
    assert(ns@.take(ns@.len() as int) =~= ns@);
    out
}

fn overrides_string(o: &Option<Vec<String>>) -> (r: String)
    ensures
        r@ == overrides_text(*o),
{
    match o {
        None => String::new(),
        Some(ns) => if ns.len() == 0 {
            String::from_str(" override")
        } else {
            String::from_str(" override(").concat(names_string(ns).as_str()).concat(")")
        },
    }
}

fn virtual_string(v: Option<bool>) -> (r: String)
    ensures
        r@ == virtual_text(v),
{
    if v == Some(true) {
        String::from_str(" virtual")
    } else {
        String::new()
    }
}

fn mutability_str(m: StateMutability) -> (r: &'static str)
    ensures
        r@ == mutability_text(m),
{
    match m {
        StateMutability::Pure => "pure",
        StateMutability::View => "view",
        StateMutability::NonPayable => "nonpayable",
        StateMutability::Payable => "payable",
    }
}

fn name_string(n: &String) -> (r: String)
    ensures
        r@ == name_part(n@),
{
    if n.unicode_len() > 0 {
        String::from_str(" ").concat(n.as_str())
    } else {
        String::new()
    }
}

fn invocations_string(u: &SourceUnit, ms: &Vec<ModifierInvocation>) -> (r: String)
    ensures
        r@ == invocations_text(*u, ms@),
{
    let mut out = String::new();
    let mut i: usize = 0;
    assert(ms@.take(0) =~= Seq::<ModifierInvocation>::empty());
    while i < ms.len()
        invariant
            i <= ms@.len(),
            out@ == invocations_text(*u, ms@.take(i as int)),
        decreases ms@.len() - i,
    {
        assert(ms@.take(i + 1).drop_last() =~= ms@.take(i as int));
        assert(ms@.take(i + 1).last() == ms@[i as int]);
        out.append(" ");
        out.append(node_text(u, ms[i].info.src.as_str()).as_str());
        i = i + 1;
    }
    assert(ms@.take(ms@.len() as int) =~= ms@);
    out
}

fn modifier_string(u: &SourceUnit, m: &ModifierDefinition) -> (r: String)
    ensures
        r@ == modifier_line(*u, *m),
{
    let params = params_string(u, &m.parameters);
    let mut line = String::from_str("- [ ] `modifier").concat(name_string(&m.name).as_str()).concat(params.as_str());
    if m.visibility != Visibility::Internal {
        line = line.concat(params.as_str()).concat(" ").concat(visibility_str(m.visibility));
    }
    line.concat(virtual_string(m.is_virtual).as_str()).concat(overrides_string(&m.overrides).as_str()).concat("`")
}

fn function_string(u: &SourceUnit, f: &FunctionDefinition) -> (r: String)
    ensures
        r@ == function_line(*u, *f),
{
    let mut line = String::from_str("- [ ] `").concat(function_kind_str(f.kind)).concat(name_string(&f.name).as_str()).concat(
        params_string(u, &f.parameters).as_str(),
    ).concat(" ").concat(visibility_str(f.visibility));
    if f.state_mutability != StateMutability::NonPayable {
        line = line.concat(" ").concat(mutability_str(f.state_mutability));
    }
    line = line.concat(virtual_string(f.is_virtual).as_str()).concat(overrides_string(&f.overrides).as_str()).concat(
        invocations_string(u, &f.modifiers).as_str(),
    );
    if f.return_parameters.len() > 0 {
        line = line.concat(" returns ").concat(params_string(u, &f.return_parameters).as_str());
    }
    line.concat("`")
}

fn item_string(u: &SourceUnit, sel: u8, n: &ContractDefinitionNode) -> (r: Option<String>)
    ensures
        match item_line(*u, sel, *n) {
            Some(l) => r matches Some(s) && s@ == l,
            None => r is None,
        },
{
    match n {
        ContractDefinitionNode::EnumDefinition(e) => if sel == 0 {
            Some(String::from_str("- [ ] `enum ").concat(e.name.as_str()).concat("`"))
        } else {
            None
        },
        ContractDefinitionNode::StructDefinition(s) => if sel == 1 {
            Some(String::from_str("- [ ] `struct ").concat(s.name.as_str()).concat("`"))
        } else {
            None
        },
        ContractDefinitionNode::VariableDeclaration(v) => if sel == 2 {
            Some(String::from_str("- [ ] `").concat(node_text(u, v.info.src.as_str()).as_str()).concat("`"))
        } else {
            None
        },
        ContractDefinitionNode::ModifierDefinition(m) => if sel == 3 {
            Some(modifier_string(u, m))
        } else {
            None
        },
        ContractDefinitionNode::FunctionDefinition(f) => if sel == 4 && f.body.is_some() {
            Some(function_string(u, f))
        } else {
            None
        },
        _ => None,
    }
}

fn section_item_strings(u: &SourceUnit, sel: u8, c: &ContractDefinition) -> (r: Vec<String>)
    ensures
        texts(r@) == section_items(*u, sel, c.nodes@),
{
    let mut items: Vec<String> = Vec::new();
    let mut k: usize = 0;
    assert(c.nodes@.take(0) =~= Seq::<ContractDefinitionNode>::empty());
    assert(texts(items@) =~= Seq::<Seq<char>>::empty());
    while k < c.nodes.len()
        invariant
            k <= c.nodes@.len(),
            texts(items@) == section_items(*u, sel, c.nodes@.take(k as int)),
        decreases c.nodes@.len() - k,
    {
        let ghost before = items@;
        let item = item_string(u, sel, &c.nodes[k]);
        proof {
            let t = c.nodes@.take(k + 1);
            assert(t.drop_last() =~= c.nodes@.take(k as int));
            assert(t.last() == c.nodes@[k as int]);
        }
        match item {
            Some(l) => {
                items.push(l);
                assert(texts(items@) =~= texts(before) + seq![l@]);
            },
            None => {
                assert(texts(items@) =~= texts(before) + Seq::<Seq<char>>::empty());
            },
        }
        k = k + 1;
    }
    assert(c.nodes@.take(c.nodes@.len() as int) =~= c.nodes@);
    items
}

fn section_title_str(sel: u8) -> (r: &'static str)
    ensures
        r@ == section_title(sel),
{
    if sel == 0 {
        "#### Enums:"
    } else if sel == 1 {
        "#### Structs:"
    } else if sel == 2 {
        "#### Variables:"
    } else if sel == 3 {
        "#### Modifiers:"
    } else {
        "#### Functions:"
    }
}

fn section_strings(u: &SourceUnit, sel: u8, c: &ContractDefinition) -> (r: Vec<String>)
    ensures
        texts(r@) == section(*u, sel, *c),
{
    let items = section_item_strings(u, sel, c);
    if items.len() == 0 {
        return Vec::new();
    }
    let mut out: Vec<String> = Vec::new();
    out.push(String::new());
    out.push(String::from_str(section_title_str(sel)));
    assert(texts(out@) =~= seq![Seq::<char>::empty(), section_title(sel)]);
    push_all(&mut out, items);
    out
}

/// The checklist lines of one contract.
pub fn contract_checklist(u: &SourceUnit, c: &ContractDefinition) -> (r: Vec<String>)
    ensures
        texts(r@) == contract_lines(*u, *c),
{
    if c.kind == ContractKind::Interface {
        return Vec::new();
    }
    let header = String::from_str("### `").concat(if c.is_abstract == Some(true) {
        "abstract "
    } else {
        proof { reveal_strlit(""); }
        ""
    }).concat(contract_kind_str(c.kind)).concat(" ").concat(c.name.as_str()).concat("`:");
    proof {
        reveal_strlit("");
        assert(header@ =~= contract_header(*c));
    }
    let mut out: Vec<String> = Vec::new();
    out.push(header);
    assert(texts(out@) =~= seq![contract_header(*c)]);
    push_all(&mut out, section_strings(u, 0, c));
    push_all(&mut out, section_strings(u, 1, c));
    push_all(&mut out, section_strings(u, 2, c));
    push_all(&mut out, section_strings(u, 3, c));
    push_all(&mut out, section_strings(u, 4, c));
    let ghost before = texts(out@);
    out.push(String::new());
    assert(texts(out@) =~= before + seq![Seq::<char>::empty()]);
    out
}

/// The checklist lines of one source unit.
pub fn unit_checklist(u: &SourceUnit) -> (r: Vec<String>)
    ensures
        texts(r@) == unit_lines(*u),
{
    let mut out: Vec<String> = Vec::new();
    let mut k: usize = 0;
    assert(u.nodes@.take(0) =~= Seq::<SourceUnitNode>::empty());
    assert(texts(out@) =~= Seq::<Seq<char>>::empty());
    while k < u.nodes.len()
        invariant
            k <= u.nodes@.len(),
            texts(out@) == contracts_lines(*u, u.nodes@.take(k as int)),
        decreases u.nodes@.len() - k,
    {
        assert(u.nodes@.take(k + 1).drop_last() =~= u.nodes@.take(k as int));
        assert(u.nodes@.take(k + 1).last() == u.nodes@[k as int]);
        let ghost before = texts(out@);
        if let SourceUnitNode::ContractDefinition(c) = &u.nodes[k] {
            push_all(&mut out, contract_checklist(u, c));
        } else {
            assert(before =~= before + Seq::<Seq<char>>::empty());
        }
        k = k + 1;
    }
    assert(u.nodes@.take(u.nodes@.len() as int) =~= u.nodes@);
    let ghost before = texts(out@);
    out.push(String::from_str("---"));
    out.push(String::new());
    assert(texts(out@) =~= before + seq!["---"@, Seq::<char>::empty()]);
    out
}

/// The review checklist of the source units `units`, as lines.
pub fn todo_list(units: &Vec<SourceUnit>) -> (r: Vec<String>)
    ensures
        texts(r@) == checklist(units@),
{
    let mut out: Vec<String> = Vec::new();
    let mut i: usize = 0;
    assert(units@.take(0) =~= Seq::<SourceUnit>::empty());
    assert(texts(out@) =~= Seq::<Seq<char>>::empty());
    while i < units.len()
        invariant
            i <= units@.len(),
            texts(out@) == checklist(units@.take(i as int)),
        decreases units@.len() - i,
    {
        assert(units@.take(i + 1).drop_last() =~= units@.take(i as int));
        assert(units@.take(i + 1).last() == units@[i as int]);
        push_all(&mut out, unit_checklist(&units[i]));
        i = i + 1;
    }
    assert(units@.take(units@.len() as int) =~= units@);
    out
}

} // verus!
