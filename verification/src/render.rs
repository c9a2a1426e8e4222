//! Source positions and the wording of findings: the line a node starts on,
//! the text of a node, how a definition is named in a message, and the plain
//! text form of a report.
use vstd::prelude::*;
use vstd::string::*;
use crate::ast::{
    ContractDefinition, ContractDefinitionNode, ContractKind, FunctionDefinition, FunctionKind, SourceUnit, Visibility,
};
use crate::report::{EntryView, Report, ReportView};
use crate::text::{all_ascii_digits, count_char, count_char_before, decimal_value, parse_usize};

verus! {

/// Why a finding could not be placed in its source.
#[derive(Debug)]
pub enum AnalysisError {
    /// The source unit carries no source text.
    MissingSource,
    /// A node's source range is not `start:length:file` with a start inside the source.
    InvalidSourceRange,
    /// A loop was left that is not the innermost one entered.
    InvalidLoopStack,
}

/// The text before the first `:` of `s` (all of `s` where it holds none).
pub open spec fn before_colon(s: Seq<char>) -> Seq<char>
    decreases s.len(),
{
    if s.len() == 0 {
        s
    } else if s[0] == ':' {
        Seq::empty()
    } else {
        seq![s[0]] + before_colon(s.drop_first())
    }
}

proof fn lemma_before_colon_take(s: Seq<char>, k: int)
    requires
        0 <= k <= s.len(),
        forall|j: int| 0 <= j < k ==> s[j] != ':',
        k == s.len() || s[k] == ':',
    ensures
        before_colon(s) == s.take(k),
    decreases s.len(),
{
    if s.len() > 0 && k > 0 {
        assert forall|j: int| 0 <= j < k - 1 implies s.drop_first()[j] != ':' by {
            assert(s.drop_first()[j] == s[j + 1]);
        }
        lemma_before_colon_take(s.drop_first(), k - 1);
        assert(s.take(k) =~= seq![s[0]] + s.drop_first().take(k - 1));
    } else if s.len() > 0 {
        assert(s.take(0) =~= Seq::<char>::empty());
    }
}

/// The text of `s` before its first `:`.
pub fn text_before_colon(s: &str) -> (r: &str)
    ensures
        r@ == before_colon(s@),
{
    let n = s.unicode_len();
    let mut k: usize = 0;
    while k < n && s.get_char(k) != ':'
        invariant
            n == s@.len(),
            k <= n,
            forall|j: int| 0 <= j < k ==> s@[j] != ':',
        decreases n - k,
    {
        k = k + 1;
    }
    proof {
        lemma_before_colon_take(s@, k as int);
    }
    s.substring_char(0, k)
}

/// The start offset a source range names: the decimal number before its first `:`.
pub open spec fn src_start(src: Seq<char>) -> Option<int> {
    let t = before_colon(src);
    if t.len() > 0 && all_ascii_digits(t) && decimal_value(t) <= usize::MAX {
        Some(decimal_value(t))
    } else {
        None
    }
}

/// The line (counted from 1) on which the offset `start` of `source` lies.
pub open spec fn line_at(source: Seq<char>, start: int) -> int {
    1 + count_char(source.take(start), '\n') as int
}

/// The line on which the node with the source range `src` starts in `unit`.
pub open spec fn spec_source_line(unit: SourceUnit, src: Seq<char>) -> Result<int, AnalysisError> {
    match unit.source {
        None => Err(AnalysisError::MissingSource),
        Some(text) => match src_start(src) {
            Some(start) => if start <= text@.len() && line_at(text@, start) <= usize::MAX {
                Ok(line_at(text@, start))
            } else {
                Err(AnalysisError::InvalidSourceRange)
            },
            None => Err(AnalysisError::InvalidSourceRange),
        },
    }
}

proof fn lemma_count_char_le(s: Seq<char>, c: char)
    ensures
        count_char(s, c) <= s.len(),
    decreases s.len(),
{
    if s.len() > 0 {
        lemma_count_char_le(s.drop_last(), c);
    }
}

/// The line on which the node with the source range `src` starts in `unit`.
pub fn source_line(unit: &SourceUnit, src: &str) -> (r: Result<usize, AnalysisError>)
    ensures
        match (r, spec_source_line(*unit, src@)) {
            (Ok(a), Ok(b)) => a == b,
            (Err(AnalysisError::MissingSource), Err(AnalysisError::MissingSource)) => true,
            (Err(AnalysisError::InvalidSourceRange), Err(AnalysisError::InvalidSourceRange)) => true,
            _ => false,
        },
{
    let text = match &unit.source {
        None => return Err(AnalysisError::MissingSource),
        Some(t) => t,
    };
    let start = match parse_usize(text_before_colon(src)) {
        None => return Err(AnalysisError::InvalidSourceRange),
        Some(v) => v,
    };
    let t = text.as_str();
    if start > t.unicode_len() {
        return Err(AnalysisError::InvalidSourceRange);
    }
    let k = count_char_before(t, '\n', start);
    if k == usize::MAX {
        return Err(AnalysisError::InvalidSourceRange);
    }
    Ok(k + 1)
}

/// The decimal digits of `n`.
pub open spec fn decimal_digits(n: nat) -> Seq<char>
    decreases n,
{
    if n < 10 {
        seq![digit_char(n)]
    } else {
        decimal_digits(n / 10) + seq![digit_char(n % 10)]
    }
}

pub open spec fn digit_char(d: nat) -> char {
    ((d + 48) as u32) as char
}

fn digit_str(d: usize) -> (r: &'static str)
    requires
        d < 10,
    ensures
        r@ == seq![digit_char(d as nat)],
{
    proof {
        reveal_strlit("0");
        reveal_strlit("1");
        reveal_strlit("2");
        reveal_strlit("3");
        reveal_strlit("4");
        reveal_strlit("5");
        reveal_strlit("6");
        reveal_strlit("7");
        reveal_strlit("8");
        reveal_strlit("9");
    }
    let r = if d == 0 { "0" } else if d == 1 { "1" } else if d == 2 { "2" } else if d == 3 { "3" }
    else if d == 4 { "4" } else if d == 5 { "5" } else if d == 6 { "6" } else if d == 7 { "7" }
    else if d == 8 { "8" } else { "9" };
    assert(r@ =~= seq![digit_char(d as nat)]);
    r
}

/// The decimal form of `n`.
pub fn u64_to_string(n: u64) -> (r: String)
    ensures
        r@ == decimal_digits(n as nat),
    decreases n,
{
    if n < 10 {
        String::from_str(digit_str(n as usize))
    } else {
        let head = u64_to_string(n / 10);
        head.concat(digit_str((n % 10) as usize))
    }
}

/// The decimal form of an integer, with a `-` before a negative one.
pub open spec fn signed_digits(n: int) -> Seq<char> {
    if n < 0 {
        "-"@ + decimal_digits((-n) as nat)
    } else {
        decimal_digits(n as nat)
    }
}

/// The decimal form of `n`, as `{}` writes it.
pub fn i64_to_string(n: i64) -> (r: String)
    ensures
        r@ == signed_digits(n as int),
{
    if n >= 0 {
        u64_to_string(n as u64)
    } else {
        let m: u64 = ((-(n + 1)) as u64) + 1;
        assert(m as int == -(n as int));
        String::from_str("-").concat(u64_to_string(m).as_str())
    }
}

/// The decimal form of `n`.
pub fn usize_to_string(n: usize) -> (r: String)
    ensures
        r@ == decimal_digits(n as nat),
    decreases n,
{
    if n < 10 {
        String::from_str(digit_str(n))
    } else {
        let head = usize_to_string(n / 10);
        head.concat(digit_str(n % 10))
    }
}

pub open spec fn visibility_text(v: Visibility) -> Seq<char> {
    match v {
        Visibility::Public => "public"@,
        Visibility::Private => "private"@,
        Visibility::Internal => "internal"@,
        Visibility::External => "external"@,
    }
}

pub fn visibility_str(v: Visibility) -> (r: &'static str)
    ensures
        r@ == visibility_text(v),
{
    match v {
        Visibility::Public => "public",
        Visibility::Private => "private",
        Visibility::Internal => "internal",
        Visibility::External => "external",
    }
}

pub open spec fn function_kind_text(k: FunctionKind) -> Seq<char> {
    match k {
        FunctionKind::Constructor => "constructor"@,
        FunctionKind::Function => "function"@,
        FunctionKind::Receive => "receive"@,
        FunctionKind::Fallback => "fallback"@,
        FunctionKind::FreeFunction => "freeFunction"@,
    }
}

pub fn function_kind_str(k: FunctionKind) -> (r: &'static str)
    ensures
        r@ == function_kind_text(k),
{
    match k {
        FunctionKind::Constructor => "constructor",
        FunctionKind::Function => "function",
        FunctionKind::Receive => "receive",
        FunctionKind::Fallback => "fallback",
        FunctionKind::FreeFunction => "freeFunction",
    }
}

pub open spec fn contract_kind_text(k: ContractKind) -> Seq<char> {
    match k {
        ContractKind::Contract => "contract"@,
        ContractKind::Interface => "interface"@,
        ContractKind::Library => "library"@,
    }
}

pub fn contract_kind_str(k: ContractKind) -> (r: &'static str)
    ensures
        r@ == contract_kind_text(k),
{
    match k {
        ContractKind::Contract => "contract",
        ContractKind::Interface => "interface",
        ContractKind::Library => "library",
    }
}

/// The debug name of a visibility, as in `Public`.
pub open spec fn debug_visibility_text(v: Visibility) -> Seq<char> {
    match v {
        Visibility::Public => "Public"@,
        Visibility::Private => "Private"@,
        Visibility::Internal => "Internal"@,
        Visibility::External => "External"@,
    }
}

pub fn debug_visibility(v: Visibility) -> (r: &'static str)
    ensures
        r@ == debug_visibility_text(v),
{
    match v {
        Visibility::Public => "Public",
        Visibility::Private => "Private",
        Visibility::Internal => "Internal",
        Visibility::External => "External",
    }
}

/// `name` qualified by the contract (the contract's name alone where `name` is empty).
pub open spec fn qualified(contract: Seq<char>, name: Seq<char>) -> Seq<char> {
    if name.len() == 0 {
        contract
    } else {
        contract + "."@ + name
    }
}

pub fn qualify(contract: &String, name: &String) -> (r: String)
    ensures
        r@ == qualified(contract@, name@),
{
    if name.unicode_len() == 0 {
        contract.clone()
    } else {
        contract.clone().concat(".").concat(name.as_str())
    }
}

/// How several analyses name a function: its debug visibility, its name
/// qualified by the contract, and its kind, as in `Public Bank.withdraw function`.
pub open spec fn function_summary_text(c: ContractDefinition, f: FunctionDefinition) -> Seq<char> {
    debug_visibility_text(f.visibility) + " "@ + qualified(c.name@, f.name@) + " "@ + function_kind_text(f.kind)
}

pub fn function_summary(c: &ContractDefinition, f: &FunctionDefinition) -> (r: String)
    ensures
        r@ == function_summary_text(*c, *f),
{
    String::from_str(debug_visibility(f.visibility)).concat(" ").concat(qualify(&c.name, &f.name).as_str()).concat(
        " ",
    ).concat(function_kind_str(f.kind))
}

/// How a type name is written: an elementary or user-defined type by its
/// name, an array as its base type and `[length]`, a mapping as
/// `mapping(key => value)`.
pub open spec fn type_name_text(t: crate::ast::TypeName) -> Seq<char>
    decreases t,
{
    match t {
        crate::ast::TypeName::ElementaryTypeName { name } => name@,
        crate::ast::TypeName::UserDefinedTypeName { name, .. } => name@,
        crate::ast::TypeName::ArrayTypeName { base_type, length } => type_name_text(*base_type) + "["@ + match length {
            Some(l) => l@,
            None => Seq::empty(),
        } + "]"@,
        crate::ast::TypeName::FunctionTypeName => "function"@,
        crate::ast::TypeName::Mapping { key_type, value_type } => "mapping("@ + type_name_text(*key_type) + " => "@
            + type_name_text(*value_type) + ")"@,
        crate::ast::TypeName::String(s) => s@,
    }
}

pub fn type_name_string(t: &crate::ast::TypeName) -> (r: String)
    ensures
        r@ == type_name_text(*t),
    decreases t,
{
    match t {
        crate::ast::TypeName::ElementaryTypeName { name } => name.clone(),
        crate::ast::TypeName::UserDefinedTypeName { name, .. } => name.clone(),
        crate::ast::TypeName::ArrayTypeName { base_type, length } => {
            let r = type_name_string(base_type).concat("[");
            let r = match length {
                Some(l) => r.concat(l.as_str()),
                None => r,
            };
            let r2 = r.concat("]");
            proof {
                match length {
                    Some(l) => {},
                    None => { assert(r@ + Seq::<char>::empty() =~= r@); },
                }
            }
            r2
        },
        crate::ast::TypeName::FunctionTypeName => String::from_str("function"),
        crate::ast::TypeName::Mapping { key_type, value_type } => String::from_str("mapping(").concat(
            type_name_string(key_type).as_str(),
        ).concat(" => ").concat(type_name_string(value_type).as_str()).concat(")"),
        crate::ast::TypeName::String(s) => s.clone(),
    }
}

/// How a message names the definition that holds a finding, e.g.
/// "The public `withdraw` function in the `Bank` contract".
pub open spec fn location_text(c: ContractDefinition, node: ContractDefinitionNode) -> Seq<char> {
    let tail = " in the `"@ + c.name@ + "` "@ + contract_kind_text(c.kind);
    match node {
        ContractDefinitionNode::FunctionDefinition(f) => "The "@ + visibility_text(f.visibility)
            + " "@ + if f.kind == FunctionKind::Constructor {
            "constructor"@
        } else {
            "`"@ + f.name@ + "` "@ + function_kind_text(f.kind)
        } + tail,
        ContractDefinitionNode::ModifierDefinition(m) => "The `"@ + m.name@ + "` modifier"@ + tail,
        ContractDefinitionNode::VariableDeclaration(v) => "The `"@ + v.name@ + "` state variable"@
            + tail,
        _ => "The `"@ + c.name@ + "` "@ + contract_kind_text(c.kind),
    }
}

/// How a message names the definition `node` of the contract `c`.
pub fn definition_node_location(c: &ContractDefinition, node: &ContractDefinitionNode) -> (r: String)
    ensures
        r@ == location_text(*c, *node),
{
    let tail = String::from_str(" in the `").concat(c.name.as_str()).concat("` ").concat(
        contract_kind_str(c.kind),
    );
    match node {
        ContractDefinitionNode::FunctionDefinition(f) => {
            let what = if f.kind == FunctionKind::Constructor {
                String::from_str("constructor")
            } else {
                String::from_str("`").concat(f.name.as_str()).concat("` ").concat(
                    function_kind_str(f.kind),
                )
            };
            let r = String::from_str("The ").concat(visibility_str(f.visibility)).concat(" ").concat(
                what.as_str(),
            ).concat(tail.as_str());
            assert(r@ =~= location_text(*c, *node));
            r
        },
        ContractDefinitionNode::ModifierDefinition(m) => {
            let r = String::from_str("The `").concat(m.name.as_str()).concat("` modifier").concat(
                tail.as_str(),
            );
            assert(r@ =~= location_text(*c, *node));
            r
        },
        ContractDefinitionNode::VariableDeclaration(v) => {
            let r = String::from_str("The `").concat(v.name.as_str()).concat(
                "` state variable",
            ).concat(tail.as_str());
            assert(r@ =~= location_text(*c, *node));
            r
        },
        _ => {
            let r = String::from_str("The `").concat(c.name.as_str()).concat("` ").concat(
                contract_kind_str(c.kind),
            );
            assert(r@ =~= location_text(*c, *node));
            r
        },
    }
}

/// The text of the node with source range `src`: the characters of `unit`'s
/// source from the range's start, as many as its length says. Where the range
/// cannot be read, or runs past the source, the text is empty.
pub open spec fn spec_node_text(unit: SourceUnit, src: Seq<char>) -> Seq<char> {
    match (unit.source, src_start(src), src_length(src)) {
        (Some(text), Some(s), Some(l)) => if s + l <= text@.len() {
            text@.subrange(s, s + l)
        } else {
            Seq::empty()
        },
        _ => Seq::empty(),
    }
}

/// The length a source range names: the decimal number after its first `:`
/// and before the next.
pub open spec fn src_length(src: Seq<char>) -> Option<int> {
    let b = before_colon(src);
    if b.len() < src.len() {
        let t = before_colon(src.subrange(b.len() as int + 1, src.len() as int));
        if t.len() > 0 && all_ascii_digits(t) && decimal_value(t) <= usize::MAX {
            Some(decimal_value(t))
        } else {
            None
        }
    } else {
        None
    }
}

proof fn lemma_before_colon_len(s: Seq<char>)
    ensures
        before_colon(s).len() <= s.len(),
        before_colon(s).len() < s.len() ==> s[before_colon(s).len() as int] == ':',
        is_prefix_of(before_colon(s), s),
    decreases s.len(),
{
    if s.len() > 0 && s[0] != ':' {
        lemma_before_colon_len(s.drop_first());
        let b = before_colon(s.drop_first());
        if b.len() < s.drop_first().len() {
            assert(s[b.len() as int + 1] == s.drop_first()[b.len() as int]);
        }
        assert forall|j: int| 0 <= j < before_colon(s).len() implies before_colon(s)[j] == s[j] by {
            if j > 0 {
                assert(before_colon(s)[j] == b[j - 1]);
            }
        }
    }
}

pub open spec fn is_prefix_of(p: Seq<char>, s: Seq<char>) -> bool {
    p.len() <= s.len() && forall|j: int| 0 <= j < p.len() ==> p[j] == s[j]
}

/// The text of the node with source range `src` in `unit`.
pub fn node_text(unit: &SourceUnit, src: &str) -> (r: String)
    ensures
        r@ == spec_node_text(*unit, src@),
{
    let text = match &unit.source {
        None => return String::new(),
        Some(t) => t,
    };
    let b = text_before_colon(src);
    let start = match parse_usize(b) {
        None => return String::new(),
        Some(v) => v,
    };
    let n = src.unicode_len();
    let bl = b.unicode_len();
    proof {
        lemma_before_colon_len(src@);
    }
    if bl >= n {
        return String::new();
    }
    let rest = src.substring_char(bl + 1, n);
    let lb = text_before_colon(rest);
    let length = match parse_usize(lb) {
        None => return String::new(),
        Some(v) => v,
    };
    let t = text.as_str();
    let tl = t.unicode_len();
    if start > tl || length > tl - start {
        return String::new();
    }
    String::from_str(t.substring_char(start, start + length))
}

/// The plain text of an entry: `L<line>: <text>`, or only the text where it
/// has no line.
pub open spec fn entry_text(e: EntryView) -> Seq<char> {
    match e.0 {
        Some(l) => "L"@ + decimal_digits(l as nat) + ": "@ + e.1,
        None => e.1,
    }
}

/// The lines of one file's part of a report.
pub open spec fn file_text(path: Seq<char>, entries: Seq<EntryView>) -> Seq<char>
    decreases entries.len(),
{
    if entries.len() == 0 {
        path + ":\n"@
    } else {
        file_text(path, entries.drop_last()) + "\t"@ + entry_text(entries.last()) + "\n"@
    }
}

/// The plain text of a report: each file's path and entries, files set apart
/// by an empty line.
pub open spec fn report_text(r: ReportView) -> Seq<char>
    decreases r.len(),
{
    if r.len() == 0 {
        Seq::empty()
    } else if r.len() == 1 {
        file_text(r[0].0, r[0].1)
    } else {
        report_text(r.drop_last()) + "\n"@ + file_text(r.last().0, r.last().1)
    }
}

/// The plain text of a report.
pub fn report_to_text(report: &Report) -> (r: String)
    ensures
        r@ == report_text(report@),
{
    let n = report.file_count();
    let mut out = String::new();
    let mut i: usize = 0;
    while i < n
        invariant
            n == report@.len(),
            i <= n,
            out@ == report_text(report@.take(i as int)),
        decreases n - i,
    {
        if i > 0 {
            out.append("\n");
        }
        let path = report.file_path(i);
        let entries = report.file_entries(i);
        let ghost ev = report@[i as int].1;
        let mut f = path.clone().concat(":\n");
        let m = entries.len();
        let mut j: usize = 0;
        assert(ev.take(0) =~= Seq::<EntryView>::empty());
        while j < m
            invariant
                m == entries@.len(),
                ev == entries@.map_values(|e: crate::report::Entry| e@),
                j <= m,
                f@ == file_text(path@, ev.take(j as int)),
            decreases m - j,
        {
            let e = &entries[j];
            let line_text = match e.line {
                Some(l) => String::from_str("L").concat(usize_to_string(l).as_str()).concat(": ").concat(e.text.as_str()),
                None => e.text.clone(),
            };
            assert(line_text@ == entry_text(ev[j as int]));
            f = f.concat("\t").concat(line_text.as_str()).concat("\n");
            assert(ev.take(j + 1).drop_last() =~= ev.take(j as int));
            j = j + 1;
        }
        assert(ev.take(m as int) =~= ev);
        out.append(f.as_str());
        proof {
            let t = report@.take(i + 1);
            assert(t.drop_last() =~= report@.take(i as int));
            if i == 0 {
                assert(report@.take(0) =~= Seq::<(Seq<char>, Seq<EntryView>)>::empty());
                assert(out@ =~= file_text(t[0].0, t[0].1));
            } else {
                assert(out@ =~= report_text(t.drop_last()) + "\n"@ + file_text(t.last().0, t.last().1));
            }
        }
        i = i + 1;
    }
    assert(report@.take(n as int) =~= report@);
    out
}

} // verus!
