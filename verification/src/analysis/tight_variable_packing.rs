//! Structs and contracts whose members leave storage slots partly empty: the
//! members are packed into 32-byte slots in order, a member that does not
//! fit in the current slot starting a new one.
use vstd::prelude::*;
use crate::analysis::{DefCtx, Output, UnitCtx};
use crate::ast::{
    ContractDefinition, ContractDefinitionNode, ContractKind, NodeId, SourceUnit, SourceUnitNode, StructDefinition,
    TypeName, VariableDeclaration,
};
use crate::text::{int_literal_value, is_prefix, parse_int_literal, parse_usize_std, starts_with, str_eq, trim_start_all,
    trim_start_matches, usize_from_str};

verus! {

/// How deeply struct members are followed when sizing a type. The compiler
/// rejects a struct that contains itself other than through a dynamic array
/// or a mapping, which are sized as one slot without looking into their
/// element type; so in code that compiles, a chain of nested struct members
/// names each struct definition at most once, and every type of a project
/// with fewer struct definitions than this bound is sized exactly. Deeper
/// chains stop with `SizeError::Unsized` rather than recursing without end.
pub const TYPE_DEPTH: u64 = 256;

/// What a user-defined type identifier names, as far as sizing goes: an enum,
/// or a struct with its members.
pub enum UserType<'a> {
    Enum,
    Struct(&'a Vec<VariableDeclaration>),
}

/// The spec form of what a user-defined type names: `None` for an enum,
/// `Some(members)` for a struct.
pub type UserTypeView = Option<Seq<VariableDeclaration>>;

/// The first enum (then the first struct) with identifier `id` among the
/// top-level nodes of a source unit.
pub open spec fn unit_enum(nodes: Seq<SourceUnitNode>, id: NodeId) -> bool {
    exists|k: int| 0 <= k < nodes.len() && (#[trigger] nodes[k] matches SourceUnitNode::EnumDefinition(e) && e.info.id == id)
}

pub open spec fn unit_struct(nodes: Seq<SourceUnitNode>, id: NodeId) -> Option<Seq<VariableDeclaration>>
    decreases nodes.len(),
{
    if nodes.len() == 0 {
        None
    } else {
        match nodes[0] {
            SourceUnitNode::StructDefinition(s) => if s.info.id == id {
                Some(s.members@)
            } else {
                unit_struct(nodes.drop_first(), id)
            },
            _ => unit_struct(nodes.drop_first(), id),
        }
    }
}

pub open spec fn contract_enum(nodes: Seq<ContractDefinitionNode>, id: NodeId) -> bool {
    exists|k: int| 0 <= k < nodes.len() && (#[trigger] nodes[k] matches ContractDefinitionNode::EnumDefinition(e) && e.info.id == id)
}

pub open spec fn contract_struct(nodes: Seq<ContractDefinitionNode>, id: NodeId) -> Option<Seq<VariableDeclaration>>
    decreases nodes.len(),
{
    if nodes.len() == 0 {
        None
    } else {
        match nodes[0] {
            ContractDefinitionNode::StructDefinition(s) => if s.info.id == id {
                Some(s.members@)
            } else {
                contract_struct(nodes.drop_first(), id)
            },
            _ => contract_struct(nodes.drop_first(), id),
        }
    }
}

/// Among the contracts of `nodes`, in order: the first that defines an enum
/// or a struct with identifier `id`, and which.
pub open spec fn in_contracts(nodes: Seq<SourceUnitNode>, id: NodeId) -> Option<UserTypeView>
    decreases nodes.len(),
{
    if nodes.len() == 0 {
        None
    } else {
        match nodes[0] {
            SourceUnitNode::ContractDefinition(c) => if contract_enum(c.nodes@, id) {
                Some(None)
            } else if contract_struct(c.nodes@, id) is Some {
                Some(contract_struct(c.nodes@, id))
            } else {
                in_contracts(nodes.drop_first(), id)
            },
            _ => in_contracts(nodes.drop_first(), id),
        }
    }
}

/// What the identifier `id` names, searching the source units in order and
/// in each its top-level enums, then its top-level structs, then its contracts.
pub open spec fn user_type(units: Seq<SourceUnit>, id: NodeId) -> Option<UserTypeView>
    decreases units.len(),
{
    if units.len() == 0 {
        None
    } else if unit_enum(units[0].nodes@, id) {
        Some(None)
    } else if unit_struct(units[0].nodes@, id) is Some {
        Some(unit_struct(units[0].nodes@, id))
    } else {
        match in_contracts(units[0].nodes@, id) {
            Some(t) => Some(t),
            None => user_type(units.drop_first(), id),
        }
    }
}

/// Why a type cannot be sized: a user-defined type or an array length that
/// cannot be found or read (`NotFound`), a width or length in an elementary
/// type's name that is not a number (`InvalidData`), or a type this analysis
/// does not size (a struct member without a type, user types nested deeper
/// than the bound, or a size that does not fit in a `u64`).
pub enum SizeError {
    NotFound,
    InvalidData,
    Unsized,
}

/// The size in bytes of an elementary type, and whether it is one the
/// analysis does not know (taken as 32 bytes, with a warning).
pub open spec fn elementary_size(name: Seq<char>) -> (Result<nat, SizeError>, bool) {
    if name == "bool"@ {
        (Ok(1), false)
    } else if name == "address"@ {
        (Ok(20), false)
    } else if is_prefix("uint"@, name) {
        let rest = trim_start_all(name, "uint"@);
        (if rest.len() == 0 { Ok(32nat) } else {
            match usize_from_str(rest) {
                Some(bits) => Ok(bits / 8),
                None => Err(SizeError::InvalidData),
            }
        }, false)
    } else if is_prefix("int"@, name) {
        let rest = trim_start_all(name, "int"@);
        (if rest.len() == 0 { Ok(32nat) } else {
            match usize_from_str(rest) {
                Some(bits) => Ok(bits / 8),
                None => Err(SizeError::InvalidData),
            }
        }, false)
    } else if is_prefix("bytes"@, name) {
        let rest = trim_start_all(name, "bytes"@);
        (if rest.len() == 0 { Ok(32nat) } else {
            match usize_from_str(rest) {
                Some(b) => Ok(b),
                None => Err(SizeError::InvalidData),
            }
        }, false)
    } else {
        (Ok(32), true)
    }
}

/// The warning printed for an elementary type the analysis does not know.
pub open spec fn unhandled_type_line(name: Seq<char>) -> Seq<char> {
    "WARNING: unhandled type name: \""@ + name + "\""@
}

/// How deeply array and mapping types nest in `t`.
pub open spec fn type_height(t: TypeName) -> nat
    decreases t,
{
    match t {
        TypeName::ArrayTypeName { base_type, .. } => 1 + type_height(*base_type),
        TypeName::Mapping { key_type, value_type } => 1 + type_height(*key_type) + type_height(*value_type),
        _ => 0,
    }
}

/// `a` times `b`, where it fits in a `u64`.
pub open spec fn checked_product(a: nat, b: nat) -> Option<nat> {
    if a * b <= u64::MAX {
        Some(a * b)
    } else {
        None
    }
}

/// The length an array type's literal gives, as the analysis reads it: an
/// `i64`, taken modulo 2^64 where it is negative.
pub open spec fn array_length(l: int) -> nat {
    if l < 0 {
        (l + 0x1_0000_0000_0000_0000) as nat
    } else {
        l as nat
    }
}

/// The size in bytes of a type, and the warnings sizing it prints; where the
/// type cannot be sized, the error says why.
pub open spec fn type_size(units: Seq<SourceUnit>, t: TypeName, depth: nat) -> (Result<nat, SizeError>, Seq<Seq<char>>)
    decreases depth, 1nat, type_height(t),
{
    match t {
        TypeName::ElementaryTypeName { name } => {
            let (s, warn) = elementary_size(name@);
            (s, if warn { seq![unhandled_type_line(name@)] } else { Seq::empty() })
        },
        TypeName::UserDefinedTypeName { referenced_declaration: id, .. } => match user_type(units, id) {
            Some(None) => (Ok(1), Seq::empty()),
            Some(Some(members)) => members_size(units, members, depth),
            None => (Err(SizeError::NotFound), Seq::empty()),
        },
        TypeName::ArrayTypeName { base_type, length: Some(l) } => match int_literal_value(l@) {
            Some(n) => {
                let (s, w) = type_size(units, *base_type, depth);
                (match s {
                    Ok(x) => match checked_product(x, array_length(n)) {
                        Some(y) => Ok(y),
                        None => Err(SizeError::Unsized),
                    },
                    Err(e) => Err(e),
                }, w)
            },
            None => (Err(SizeError::NotFound), Seq::empty()),
        },
        _ => (Ok(32), Seq::empty()),
    }
}

/// The summed size of struct members, in order, stopping at the first that
/// cannot be sized; the members' types are sized one level deeper.
pub open spec fn members_size(units: Seq<SourceUnit>, members: Seq<VariableDeclaration>, depth: nat) -> (Result<nat, SizeError>, Seq<Seq<char>>)
    decreases depth, 0nat, members.len(),
{
    if members.len() == 0 {
        (Ok(0), Seq::empty())
    } else {
        let (before, w1) = members_size(units, members.drop_last(), depth);
        match before {
            Err(e) => (Err(e), w1),
            Ok(b) => match members.last().ty {
                None => (Err(SizeError::Unsized), w1),
                Some(t) => if depth == 0 {
                    (Err(SizeError::Unsized), w1)
                } else {
                    let (s, w2) = type_size(units, t, (depth - 1) as nat);
                    (match s {
                        Ok(x) => if b + x <= u64::MAX {
                            Ok(b + x)
                        } else {
                            Err(SizeError::Unsized)
                        },
                        Err(e) => Err(e),
                    }, w1 + w2)
                },
            },
        }
    }
}

fn has_unit_enum(nodes: &Vec<SourceUnitNode>, id: NodeId) -> (r: bool)
    ensures
        r == unit_enum(nodes@, id),
{
    let mut k: usize = 0;
    while k < nodes.len()
        invariant
            k <= nodes@.len(),
            forall|j: int| 0 <= j < k ==> !(#[trigger] nodes@[j] matches SourceUnitNode::EnumDefinition(e) && e.info.id == id),
        decreases nodes@.len() - k,
    {
        if let SourceUnitNode::EnumDefinition(e) = &nodes[k] {
            if e.info.id == id {
                assert(nodes@[k as int] matches SourceUnitNode::EnumDefinition(x) && x.info.id == id);
                return true;
            }
        }
        k = k + 1;
    }
    false
}

fn find_unit_struct(nodes: &Vec<SourceUnitNode>, id: NodeId) -> (r: Option<&Vec<VariableDeclaration>>)
    ensures
        match r {
            Some(m) => unit_struct(nodes@, id) == Some(m@),
            None => unit_struct(nodes@, id) is None,
        },
{
    let mut k: usize = 0;
    assert(nodes@.skip(0) =~= nodes@);
    while k < nodes.len()
        invariant
            k <= nodes@.len(),
            unit_struct(nodes@, id) == unit_struct(nodes@.skip(k as int), id),
        decreases nodes@.len() - k,
    {
        assert(nodes@.skip(k as int)[0] == nodes@[k as int]);
        assert(nodes@.skip(k as int).drop_first() =~= nodes@.skip(k + 1));
        if let SourceUnitNode::StructDefinition(st) = &nodes[k] {
            if st.info.id == id {
                return Some(&st.members);
            }
        }
        k = k + 1;
    }
    assert(nodes@.skip(k as int) =~= Seq::<SourceUnitNode>::empty());
    None
}

fn has_contract_enum(nodes: &Vec<ContractDefinitionNode>, id: NodeId) -> (r: bool)
    ensures
        r == contract_enum(nodes@, id),
{
    let mut k: usize = 0;
    while k < nodes.len()
        invariant
            k <= nodes@.len(),
            forall|j: int| 0 <= j < k ==> !(#[trigger] nodes@[j] matches ContractDefinitionNode::EnumDefinition(e) && e.info.id == id),
        decreases nodes@.len() - k,
    {
        if let ContractDefinitionNode::EnumDefinition(e) = &nodes[k] {
            if e.info.id == id {
                assert(nodes@[k as int] matches ContractDefinitionNode::EnumDefinition(x) && x.info.id == id);
                return true;
            }
        }
        k = k + 1;
    }
    false
}

fn find_contract_struct(nodes: &Vec<ContractDefinitionNode>, id: NodeId) -> (r: Option<&Vec<VariableDeclaration>>)
    ensures
        match r {
            Some(m) => contract_struct(nodes@, id) == Some(m@),
            None => contract_struct(nodes@, id) is None,
        },
{
    let mut k: usize = 0;
    assert(nodes@.skip(0) =~= nodes@);
    while k < nodes.len()
        invariant
            k <= nodes@.len(),
            contract_struct(nodes@, id) == contract_struct(nodes@.skip(k as int), id),
        decreases nodes@.len() - k,
    {
        assert(nodes@.skip(k as int)[0] == nodes@[k as int]);
        assert(nodes@.skip(k as int).drop_first() =~= nodes@.skip(k + 1));
        if let ContractDefinitionNode::StructDefinition(st) = &nodes[k] {
            if st.info.id == id {
                return Some(&st.members);
            }
        }
        k = k + 1;
    }
    assert(nodes@.skip(k as int) =~= Seq::<ContractDefinitionNode>::empty());
    None
}

pub open spec fn user_type_view(t: UserType) -> UserTypeView {
    match t {
        UserType::Enum => None,
        UserType::Struct(m) => Some(m@),
    }
}

fn find_in_contracts<'a>(nodes: &'a Vec<SourceUnitNode>, id: NodeId) -> (r: Option<UserType<'a>>)
    ensures
        match r {
            Some(t) => in_contracts(nodes@, id) == Some(user_type_view(t)),
            None => in_contracts(nodes@, id) is None,
        },
{
    let mut k: usize = 0;
    assert(nodes@.skip(0) =~= nodes@);
    while k < nodes.len()
        invariant
            k <= nodes@.len(),
            in_contracts(nodes@, id) == in_contracts(nodes@.skip(k as int), id),
        decreases nodes@.len() - k,
    {
        assert(nodes@.skip(k as int)[0] == nodes@[k as int]);
        assert(nodes@.skip(k as int).drop_first() =~= nodes@.skip(k + 1));
        if let SourceUnitNode::ContractDefinition(c) = &nodes[k] {
            if has_contract_enum(&c.nodes, id) {
                return Some(UserType::Enum);
            }
            if let Some(m) = find_contract_struct(&c.nodes, id) {
                return Some(UserType::Struct(m));
            }
        }
        k = k + 1;
    }
    assert(nodes@.skip(k as int) =~= Seq::<SourceUnitNode>::empty());
    None
}

/// Finds what a user-defined type identifier names.
pub fn find_user_type<'a>(units: &'a Vec<SourceUnit>, id: NodeId) -> (r: Option<UserType<'a>>)
    ensures
        match r {
            Some(t) => user_type(units@, id) == Some(user_type_view(t)),
            None => user_type(units@, id) is None,
        },
{
    let mut i: usize = 0;
    assert(units@.skip(0) =~= units@);
    while i < units.len()
        invariant
            i <= units@.len(),
            user_type(units@, id) == user_type(units@.skip(i as int), id),
        decreases units@.len() - i,
    {
        assert(units@.skip(i as int)[0] == units@[i as int]);
        assert(units@.skip(i as int).drop_first() =~= units@.skip(i + 1));
        let nodes = &units[i].nodes;
        if has_unit_enum(nodes, id) {
            return Some(UserType::Enum);
        }
        if let Some(m) = find_unit_struct(nodes, id) {
            return Some(UserType::Struct(m));
        }
        if let Some(t) = find_in_contracts(nodes, id) {
            return Some(t);
        }
        i = i + 1;
    }
    assert(units@.skip(i as int) =~= Seq::<SourceUnit>::empty());
    None
}

pub open spec fn res_nat(o: Result<u64, SizeError>) -> Result<nat, SizeError> {
    match o {
        Ok(x) => Ok(x as nat),
        Err(e) => Err(e),
    }
}

pub open spec fn lines_of(v: Seq<String>) -> Seq<Seq<char>> {
    v.map_values(|s: String| s@)
}

fn elementary_type_size(name: &String, warnings: &mut Vec<String>) -> (r: Result<u64, SizeError>)
    ensures
        res_nat(r) == elementary_size(name@).0,
        lines_of(final(warnings)@) == lines_of(old(warnings)@) + if elementary_size(name@).1 {
            seq![unhandled_type_line(name@)]
        } else {
            Seq::empty()
        },
{
    proof {
        reveal_strlit("bool");
        reveal_strlit("address");
        reveal_strlit("uint");
        reveal_strlit("int");
        reveal_strlit("bytes");
    }
    let n = name.as_str();
    let r = if str_eq(n, "bool") {
        Ok(1u64)
    } else if str_eq(n, "address") {
        Ok(20u64)
    } else if starts_with(n, "uint") || starts_with(n, "int") {
        let rest = if starts_with(n, "uint") { trim_start_matches(n, "uint") } else { trim_start_matches(n, "int") };
        if rest.unicode_len() == 0 {
            Ok(32u64)
        } else {
            match parse_usize_std(rest) {
                Some(bits) => Ok((bits / 8) as u64),
                None => Err(SizeError::InvalidData),
            }
        }
    } else if starts_with(n, "bytes") {
        let rest = trim_start_matches(n, "bytes");
        if rest.unicode_len() == 0 {
            Ok(32u64)
        } else {
            match parse_usize_std(rest) {
                Some(b) => Ok(b as u64),
                None => Err(SizeError::InvalidData),
            }
        }
    } else {
        let line = String::from_str("WARNING: unhandled type name: \"").concat(n).concat("\"");
        warnings.push(line);
        assert(lines_of(warnings@) =~= lines_of(old(warnings)@) + seq![unhandled_type_line(name@)]);
        return Ok(32u64);
    };
    assert(lines_of(warnings@) =~= lines_of(old(warnings)@) + Seq::<Seq<char>>::empty());
    r
}

/// The size in bytes of a type, with the warnings sizing it prints.
pub fn type_name_size(units: &Vec<SourceUnit>, t: &TypeName, depth: u64, warnings: &mut Vec<String>) -> (r: Result<u64, SizeError>)
    ensures
        res_nat(r) == type_size(units@, *t, depth as nat).0,
        lines_of(final(warnings)@) == lines_of(old(warnings)@) + type_size(units@, *t, depth as nat).1,
    decreases depth, 1nat, type_height(*t),
{
    match t {
        TypeName::ElementaryTypeName { name } => elementary_type_size(name, warnings),
        TypeName::UserDefinedTypeName { referenced_declaration: id, .. } => match find_user_type(units, *id) {
            Some(UserType::Enum) => {
                assert(lines_of(warnings@) =~= lines_of(old(warnings)@) + Seq::<Seq<char>>::empty());
                Ok(1)
            },
            Some(UserType::Struct(members)) => members_size_of(units, members, depth, warnings),
            None => {
                assert(lines_of(warnings@) =~= lines_of(old(warnings)@) + Seq::<Seq<char>>::empty());
                Err(SizeError::NotFound)
            },
        },
        TypeName::ArrayTypeName { base_type, length: Some(l) } => match parse_int_literal(l.as_str()) {
            Some(n) => {
                let len: u64 = if n < 0 {
                    ((n + 1) as i128 + 0xffff_ffff_ffff_ffff) as u64
                } else {
                    n as u64
                };
                assert(len as nat == array_length(n as int));
                match type_name_size(units, base_type, depth, warnings) {
                    Ok(x) => {
                        let p = x.checked_mul(len);
                        proof {
                            if p is None {
                                assert((x as nat) * (len as nat) > u64::MAX);
                            }
                        }
                        match p {
                            Some(y) => Ok(y),
                            None => Err(SizeError::Unsized),
                        }
                    },
                    Err(e) => Err(e),
                }
            },
            None => {
                assert(lines_of(warnings@) =~= lines_of(old(warnings)@) + Seq::<Seq<char>>::empty());
                Err(SizeError::NotFound)
            },
        },
        _ => {
            assert(lines_of(warnings@) =~= lines_of(old(warnings)@) + Seq::<Seq<char>>::empty());
            Ok(32)
        },
    }
}

proof fn lemma_members_none_stays(units: Seq<SourceUnit>, m: Seq<VariableDeclaration>, j: int, depth: nat)
    requires
        0 <= j <= m.len(),
        members_size(units, m.take(j), depth).0 is Err,
    ensures
        members_size(units, m, depth) == members_size(units, m.take(j), depth),
    decreases m.len() - j,
{
    if j < m.len() {
        assert(m.take(j + 1).drop_last() =~= m.take(j));
        assert(members_size(units, m.take(j + 1), depth) == members_size(units, m.take(j), depth));
        lemma_members_none_stays(units, m, j + 1, depth);
    } else {
        assert(m.take(j) =~= m);
    }
}

fn members_size_of(units: &Vec<SourceUnit>, members: &Vec<VariableDeclaration>, depth: u64, warnings: &mut Vec<String>) -> (r: Result<u64, SizeError>)
    ensures
        res_nat(r) == members_size(units@, members@, depth as nat).0,
        lines_of(final(warnings)@) == lines_of(old(warnings)@) + members_size(units@, members@, depth as nat).1,
    decreases depth, 0nat, members@.len(),
{
    let mut total: u64 = 0;
    let mut k: usize = 0;
    assert(members@.take(0) =~= Seq::<VariableDeclaration>::empty());
    assert(lines_of(warnings@) =~= lines_of(old(warnings)@) + Seq::<Seq<char>>::empty());
    while k < members.len()
        invariant
            k <= members@.len(),
            members_size(units@, members@.take(k as int), depth as nat).0 == Ok::<nat, SizeError>(total as nat),
            lines_of(warnings@) == lines_of(old(warnings)@) + members_size(units@, members@.take(k as int), depth as nat).1,
        decreases members@.len() - k,
    {
        assert(members@.take(k + 1).drop_last() =~= members@.take(k as int));
        assert(members@.take(k + 1).last() == members@[k as int]);
        let ghost w1 = members_size(units@, members@.take(k as int), depth as nat).1;
        let t = match &members[k].ty {
            Some(t) => t,
            None => {
                proof { lemma_members_none_stays(units@, members@, k + 1, depth as nat); }
                return Err(SizeError::Unsized);
            },
        };
        if depth == 0 {
            proof { lemma_members_none_stays(units@, members@, k + 1, depth as nat); }
            return Err(SizeError::Unsized);
        }
        let ghost before = lines_of(warnings@);
        let s = type_name_size(units, t, depth - 1, warnings);
        assert(lines_of(warnings@) =~= lines_of(old(warnings)@) + members_size(units@, members@.take(k + 1), depth as nat).1);
        match s {
            Ok(x) => match total.checked_add(x) {
                Some(y) => {
                    total = y;
                },
                None => {
                    proof { lemma_members_none_stays(units@, members@, k + 1, depth as nat); }
                    return Err(SizeError::Unsized);
                },
            },
            Err(e) => {
                proof { lemma_members_none_stays(units@, members@, k + 1, depth as nat); }
                return Err(e);
            },
        }
        k = k + 1;
    }
    assert(members@.take(members@.len() as int) =~= members@);
    Ok(total)
}

/// Packs sizes into 32-byte slots in order: the closed slots' totals, and
/// the current slot's total and number of members.
pub open spec fn pack(sizes: Seq<nat>) -> (Seq<nat>, nat, nat)
    decreases sizes.len(),
{
    if sizes.len() == 0 {
        (Seq::empty(), 0, 0)
    } else {
        let (closed, sum, count) = pack(sizes.drop_last());
        let x = sizes.last();
        if sum + x > 32 {
            (closed.push(sum), x, 1)
        } else {
            (closed, sum + x, count + 1)
        }
    }
}

/// The totals of all slots the sizes fill.
pub open spec fn slot_totals(sizes: Seq<nat>) -> Seq<nat> {
    let (closed, sum, count) = pack(sizes);
    if count > 0 {
        closed.push(sum)
    } else {
        closed
    }
}

/// Some slot but the last is not full.
pub open spec fn is_loose(sizes: Seq<nat>) -> bool {
    let t = slot_totals(sizes);
    exists|i: int| 0 <= i < t.len() - 1 && t[i] != 32
}

/// The sizes of the members that can be sized, in order, and the warnings
/// sizing them prints.
pub open spec fn member_sizes(units: Seq<SourceUnit>, members: Seq<VariableDeclaration>) -> (Seq<nat>, Seq<Seq<char>>)
    decreases members.len(),
{
    if members.len() == 0 {
        (Seq::empty(), Seq::empty())
    } else {
        let (sizes, warnings) = member_sizes(units, members.drop_last());
        match members.last().ty {
            Some(t) => {
                let (s, w) = type_size(units, t, TYPE_DEPTH as nat);
                (match s {
                    Ok(x) => sizes.push(x),
                    Err(_) => sizes,
                }, warnings + w)
            },
            None => (sizes, warnings),
        }
    }
}

/// The state variables of a contract, in order.
pub open spec fn state_variables(nodes: Seq<ContractDefinitionNode>) -> Seq<VariableDeclaration>
    decreases nodes.len(),
{
    if nodes.len() == 0 {
        Seq::empty()
    } else {
        state_variables(nodes.drop_last()) + match nodes.last() {
            ContractDefinitionNode::VariableDeclaration(v) => seq![v],
            _ => Seq::empty(),
        }
    }
}

fn sizes_loose(sizes: &Vec<u64>) -> (r: bool)
    ensures
        r == is_loose(sizes@.map_values(|x: u64| x as nat)),
{
    let ghost all = sizes@.map_values(|x: u64| x as nat);
    let mut closed: Vec<u64> = Vec::new();
    let mut sum: u64 = 0;
    let mut count: usize = 0;
    let mut k: usize = 0;
    assert(all.take(0) =~= Seq::<nat>::empty());
    while k < sizes.len()
        invariant
            k <= sizes@.len(),
            all == sizes@.map_values(|x: u64| x as nat),
            pack(all.take(k as int)).0 == closed@.map_values(|x: u64| x as nat),
            pack(all.take(k as int)).1 == sum as nat,
            pack(all.take(k as int)).2 == count as nat,
            count <= k,
        decreases sizes@.len() - k,
    {
        assert(all.take(k + 1).drop_last() =~= all.take(k as int));
        assert(all.take(k + 1).last() == sizes@[k as int] as nat);
        let x = sizes[k];
        let exceeds = sum > 32 || x > 32 - sum;
        if exceeds {
            closed.push(sum);
            assert(closed@.map_values(|x: u64| x as nat) =~= pack(all.take(k as int)).0.push(sum as nat));
            sum = x;
            count = 1;
        } else {
            sum = sum + x;
            count = count + 1;
        }
        k = k + 1;
    }
    assert(all.take(sizes@.len() as int) =~= all);
    let ghost totals = slot_totals(all);
    if count > 0 {
        closed.push(sum);
    }
    assert(closed@.map_values(|x: u64| x as nat) =~= totals);
    let n = closed.len();
    let mut i: usize = 0;
    while n > 0 && i < n - 1
        invariant
            n == closed@.len(),
            closed@.map_values(|x: u64| x as nat) == totals,
            totals == slot_totals(all),
            all == sizes@.map_values(|x: u64| x as nat),
            forall|j: int| 0 <= j < i ==> totals[j] == 32,
            i <= n,
        decreases n - i,
    {
        if closed[i] != 32 {
            assert(totals[i as int] == closed@[i as int] as nat);
            assert(totals.len() == n);
            assert(0 <= i < totals.len() - 1 && totals[i as int] != 32);
            assert(totals == slot_totals(all));
            return true;
        }
        assert(totals[i as int] == closed@[i as int] as nat);
        i = i + 1;
    }
    false
}

/// The line printed for a struct with loose packing.
pub open spec fn loose_struct_line(name: Seq<char>) -> Seq<char> {
    "\tStruct "@ + name + " has loose variable packing"@
}

/// The line printed for a contract with loose packing.
pub open spec fn loose_contract_line(c: ContractDefinition) -> Seq<char> {
    "\t"@ + match c.kind {
        ContractKind::Contract => "Contract"@,
        ContractKind::Interface => "Interface"@,
        ContractKind::Library => "Library"@,
    } + " "@ + c.name@ + " has loose variable packing"@
}

pub struct TightVariablePackingVisitor {
    /// The structs and contracts already checked.
    pub checked: Vec<NodeId>,
}

impl TightVariablePackingVisitor {
    pub fn new() -> (r: Self)
        ensures
            r.checked@.len() == 0,
    {
        TightVariablePackingVisitor { checked: Vec::new() }
    }

    fn first_time(&mut self, id: NodeId) -> (r: bool)
        ensures
            r == !old(self).checked@.contains(id),
            final(self).checked@.contains(id),
            forall|x: NodeId| old(self).checked@.contains(x) ==> #[trigger] final(self).checked@.contains(x),
    {
        let mut k: usize = 0;
        while k < self.checked.len()
            invariant
                k <= self.checked@.len(),
                *self == *old(self),
                forall|j: int| 0 <= j < k ==> self.checked@[j] != id,
            decreases self.checked@.len() - k,
        {
            if self.checked[k] == id {
                assert(self.checked@[k as int] == id);
                return false;
            }
            k = k + 1;
        }
        self.checked.push(id);
        assert(self.checked@[self.checked@.len() - 1] == id);
        assert forall|x: NodeId| old(self).checked@.contains(x) implies #[trigger] self.checked@.contains(x) by {
            let j = choose|j: int| 0 <= j < old(self).checked@.len() && old(self).checked@[j] == x;
            assert(self.checked@[j] == x);
        }
        true
    }

    /// Sizes the members in order, printing the warnings, and tells whether
    /// their packing is loose.
    fn members_loose(units: &Vec<SourceUnit>, members: &Vec<&VariableDeclaration>, out: &mut Output) -> (r: bool)
        requires
            old(out).wf(),
        ensures
            final(out).wf(),
            old(out).extends(*final(out)),
            final(out).report == old(out).report,
            lines_of(final(out).printed@) == lines_of(old(out).printed@) + member_sizes(units@, members@.map_values(|v: &VariableDeclaration| *v)).1,
            r == is_loose(member_sizes(units@, members@.map_values(|v: &VariableDeclaration| *v)).0),
    {
        let ghost ms = members@.map_values(|v: &VariableDeclaration| *v);
        let mut sizes: Vec<u64> = Vec::new();
        let mut warnings: Vec<String> = Vec::new();
        let mut k: usize = 0;
        assert(ms.take(0) =~= Seq::<VariableDeclaration>::empty());
        while k < members.len()
            invariant
                k <= members@.len(),
                ms == members@.map_values(|v: &VariableDeclaration| *v),
                member_sizes(units@, ms.take(k as int)).0 == sizes@.map_values(|x: u64| x as nat),
                member_sizes(units@, ms.take(k as int)).1 == lines_of(warnings@),
            decreases members@.len() - k,
        {
            assert(ms.take(k + 1).drop_last() =~= ms.take(k as int));
            assert(ms.take(k + 1).last() == *members@[k as int]);
            if let Some(t) = &members[k].ty {
                let ghost before = sizes@.map_values(|x: u64| x as nat);
                match type_name_size(units, t, TYPE_DEPTH, &mut warnings) {
                    Ok(x) => {
                        sizes.push(x);
                        assert(sizes@.map_values(|x: u64| x as nat) =~= before.push(x as nat));
                    },
                    Err(_) => {},
                }
            }
            k = k + 1;
        }
        assert(ms.take(members@.len() as int) =~= ms);
        let loose = sizes_loose(&sizes);
        let mut i: usize = 0;
        let ghost start = *out;
        proof { Output::lemma_extends_refl(*out); }
        while i < warnings.len()
            invariant
                i <= warnings@.len(),
                out.wf(),
                start.extends(*out),
                start == *old(out),
                out.report == old(out).report,
                lines_of(out.printed@) == lines_of(old(out).printed@) + lines_of(warnings@).take(i as int),
            decreases warnings@.len() - i,
        {
            let ghost mid = *out;
            out.print(warnings[i].clone());
            proof {
                Output::lemma_extends_trans(start, mid, *out);
                assert(lines_of(warnings@).take(i + 1) =~= lines_of(warnings@).take(i as int).push(warnings@[i as int]@));
                assert(lines_of(out.printed@) =~= lines_of(mid.printed@).push(warnings@[i as int]@));
            }
            i = i + 1;
        }
        assert(lines_of(warnings@).take(warnings@.len() as int) =~= lines_of(warnings@));
        loose
    }

    /// Checks a struct's packing once, printing the warnings of sizing it and
    /// a line where it is loose.
    pub fn visit_struct_definition(&mut self, units: &Vec<SourceUnit>, st: &StructDefinition, out: &mut Output)
        requires
            old(out).wf(),
        ensures
            final(out).wf(),
            old(out).extends(*final(out)),
            final(out).report == old(out).report,
            final(self).checked@.contains(st.info.id),
            old(self).checked@.contains(st.info.id) ==> *final(out) == *old(out),
            !old(self).checked@.contains(st.info.id) ==> lines_of(final(out).printed@) == lines_of(old(out).printed@)
                + member_sizes(units@, st.members@).1 + if is_loose(member_sizes(units@, st.members@).0) {
                seq![loose_struct_line(st.name@)]
            } else {
                Seq::empty()
            },
    {
        proof { Output::lemma_extends_refl(*out); }
        if !self.first_time(st.info.id) {
            return;
        }
        let mut refs: Vec<&VariableDeclaration> = Vec::new();
        let mut k: usize = 0;
        while k < st.members.len()
            invariant
                k <= st.members@.len(),
                refs@.map_values(|v: &VariableDeclaration| *v) == st.members@.take(k as int),
            decreases st.members@.len() - k,
        {
            let ghost before = refs@;
            refs.push(&st.members[k]);
            assert(refs@ == before.push(&st.members@[k as int]));
            assert(refs@.map_values(|v: &VariableDeclaration| *v) =~= before.map_values(|v: &VariableDeclaration| *v).push(st.members@[k as int]));
            assert(st.members@.take(k + 1) =~= st.members@.take(k as int).push(st.members@[k as int]));
            k = k + 1;
        }
        assert(st.members@.take(st.members@.len() as int) =~= st.members@);
        if Self::members_loose(units, &refs, out) {
            let ghost mid = *out;
            out.print(String::from_str("\tStruct ").concat(st.name.as_str()).concat(" has loose variable packing"));
            proof {
                Output::lemma_extends_trans(*old(out), mid, *out);
                assert(lines_of(out.printed@) =~= lines_of(mid.printed@).push(loose_struct_line(st.name@)));
            }
        } else {
            assert(lines_of(out.printed@) =~= lines_of(out.printed@) + Seq::<Seq<char>>::empty());
        }
    }

    /// Checks a contract's packing once (not an interface's or a library's),
    /// printing the warnings of sizing its state variables and a line where it
    /// is loose.
    pub fn visit_contract_definition(&mut self, units: &Vec<SourceUnit>, c: &ContractDefinition, out: &mut Output)
        requires
            old(out).wf(),
        ensures
            final(out).wf(),
            old(out).extends(*final(out)),
            final(out).report == old(out).report,
            (c.kind != ContractKind::Contract || old(self).checked@.contains(c.info.id)) ==> *final(out) == *old(out),
            (c.kind == ContractKind::Contract && !old(self).checked@.contains(c.info.id)) ==> lines_of(final(out).printed@)
                == lines_of(old(out).printed@) + member_sizes(units@, state_variables(c.nodes@)).1 + if is_loose(
                member_sizes(units@, state_variables(c.nodes@)).0,
            ) {
                seq![loose_contract_line(*c)]
            } else {
                Seq::empty()
            },
    {
        proof { Output::lemma_extends_refl(*out); }
        if c.kind != ContractKind::Contract {
            return;
        }
        if !self.first_time(c.info.id) {
            return;
        }
        let mut refs: Vec<&VariableDeclaration> = Vec::new();
        let mut k: usize = 0;
        assert(c.nodes@.take(0) =~= Seq::<ContractDefinitionNode>::empty());
        while k < c.nodes.len()
            invariant
                k <= c.nodes@.len(),
                refs@.map_values(|v: &VariableDeclaration| *v) == state_variables(c.nodes@.take(k as int)),
            decreases c.nodes@.len() - k,
        {
            assert(c.nodes@.take(k + 1).drop_last() =~= c.nodes@.take(k as int));
            assert(c.nodes@.take(k + 1).last() == c.nodes@[k as int]);
            let ghost before = refs@.map_values(|v: &VariableDeclaration| *v);
            if let ContractDefinitionNode::VariableDeclaration(v) = &c.nodes[k] {
                refs.push(v);
                assert(refs@.map_values(|v: &VariableDeclaration| *v) =~= before + seq![*v]);
            } else {
                assert(before =~= before + Seq::<VariableDeclaration>::empty());
            }
            k = k + 1;
        }
        assert(c.nodes@.take(c.nodes@.len() as int) =~= c.nodes@);
        if Self::members_loose(units, &refs, out) {
            let ghost mid = *out;
            let kind = match c.kind {
                ContractKind::Contract => "Contract",
                ContractKind::Interface => "Interface",
                ContractKind::Library => "Library",
            };
            out.print(String::from_str("\t").concat(kind).concat(" ").concat(c.name.as_str()).concat(" has loose variable packing"));
            proof {
                Output::lemma_extends_trans(*old(out), mid, *out);
                assert(lines_of(out.printed@) =~= lines_of(mid.printed@).push(loose_contract_line(*c)));
            }
        } else {
            assert(lines_of(out.printed@) =~= lines_of(out.printed@) + Seq::<Seq<char>>::empty());
        }
    }
}

} // verus!
