//! Command-line words and the choice of which loaded source units a project
//! run keeps.
use vstd::prelude::*;
use crate::analysis::visitor::{is_analysis_name, is_visitor_type};
use crate::ast::{ContractDefinition, SourceUnit, SourceUnitNode};
use crate::text::{
    ascii_lower, eq_ascii_lowercase, ends_with, is_prefix, is_suffix, starts_with, str_eq, trim_start_all,
    trim_start_matches,
};

verus! {

/// How the report is written out.
#[derive(Debug, Clone, Copy, PartialEq, Eq, Structural)]
pub enum OutputFormat {
    PlainText,
    Json,
}

/// The output format a name selects, ignoring the case of ASCII letters:
/// `plaintext`, `plain-text` or `plain_text`, and `json`.
pub open spec fn output_format_of(s: Seq<char>) -> Option<OutputFormat> {
    let l = s.map_values(|c: char| ascii_lower(c));
    if l == "plaintext"@ || l == "plain-text"@ || l == "plain_text"@ {
        Some(OutputFormat::PlainText)
    } else if l == "json"@ {
        Some(OutputFormat::Json)
    } else {
        None
    }
}

pub fn parse_output_format(s: &str) -> (r: Option<OutputFormat>)
    ensures
        r == output_format_of(s@),
{
    if eq_ascii_lowercase(s, "plaintext") || eq_ascii_lowercase(s, "plain-text") || eq_ascii_lowercase(s, "plain_text") {
        Some(OutputFormat::PlainText)
    } else if eq_ascii_lowercase(s, "json") {
        Some(OutputFormat::Json)
    } else {
        None
    }
}

/// What one command-line word asks for.
#[derive(Debug)]
pub enum Arg {
    /// `--todo-list`: print the review checklist.
    TodoList,
    /// `--contract=<name>`: keep only source units defining this contract.
    Contract(String),
    /// `--contract-path=<path>`: a Solidity source file to analyse.
    ContractPath(String),
    /// `--output-format=<format>`: the format's name, not yet checked.
    OutputFormat(String),
    /// `--<analysis>`: run this analysis (all run where none is named).
    Analysis(String),
    /// Any other word that begins with `--`.
    Invalid(String),
    /// A word without `--`: the project's directory.
    ProjectPath(String),
}

/// The view of an argument: its kind and its text.
pub open spec fn arg_view(a: Arg) -> (nat, Seq<char>) {
    match a {
        Arg::TodoList => (0, Seq::empty()),
        Arg::Contract(s) => (1, s@),
        Arg::ContractPath(s) => (2, s@),
        Arg::OutputFormat(s) => (3, s@),
        Arg::Analysis(s) => (4, s@),
        Arg::Invalid(s) => (5, s@),
        Arg::ProjectPath(s) => (6, s@),
    }
}

/// What the word `w` asks for, as `arg_view` gives it: after `--`, the
/// todo-list switch, a `contract=` option (every leading `contract=` taken
/// off), a path or format option (the text after its 16 first characters),
/// an analysis name, or an invalid word; without `--`, a project path.
pub open spec fn classify(w: Seq<char>) -> (nat, Seq<char>) {
    if is_prefix("--"@, w) {
        let s = w.subrange(2, w.len() as int);
        if s == "todo-list"@ || s == "todo_list"@ {
            (0, Seq::empty())
        } else if is_prefix("contract="@, s) {
            (1, trim_start_all(s, "contract="@))
        } else if is_prefix("contract-path="@, s) || is_prefix("contract_path="@, s) {
            (2, w.subrange(16, w.len() as int))
        } else if is_prefix("output-format="@, s) || is_prefix("output_format="@, s) {
            (3, w.subrange(16, w.len() as int))
        } else if is_analysis_name(s) {
            (4, s)
        } else {
            (5, w)
        }
    } else {
        (6, w)
    }
}

/// Reads one command-line word.
pub fn classify_arg(w: &str) -> (r: Arg)
    ensures
        arg_view(r) == classify(w@),
{
    proof {
        reveal_strlit("--");
        reveal_strlit("contract=");
        reveal_strlit("contract-path=");
        reveal_strlit("contract_path=");
        reveal_strlit("output-format=");
        reveal_strlit("output_format=");
    }
    if !starts_with(w, "--") {
        return Arg::ProjectPath(w.to_string());
    }
    let n = w.unicode_len();
    let s = w.substring_char(2, n);
    if str_eq(s, "todo-list") || str_eq(s, "todo_list") {
        Arg::TodoList
    } else if starts_with(s, "contract=") {
        Arg::Contract(trim_start_matches(s, "contract=").to_string())
    } else if starts_with(s, "contract-path=") || starts_with(s, "contract_path=") {
        Arg::ContractPath(w.substring_char(16, n).to_string())
    } else if starts_with(s, "output-format=") || starts_with(s, "output_format=") {
        Arg::OutputFormat(w.substring_char(16, n).to_string())
    } else if is_visitor_type(s) {
        Arg::Analysis(s.to_string())
    } else {
        Arg::Invalid(w.to_string())
    }
}

/// Whether a top-level node is a contract named `name`.
pub open spec fn is_contract_named(n: SourceUnitNode, name: Seq<char>) -> bool {
    n matches SourceUnitNode::ContractDefinition(c) && c.name@ == name
}

/// Whether `u` defines, at its top level, a contract named `name`.
pub open spec fn defines_contract(u: SourceUnit, name: Seq<char>) -> bool {
    exists|k: int| 0 <= k < u.nodes@.len() && is_contract_named(#[trigger] u.nodes@[k], name)
}

/// Whether `u` defines a contract named `name`.
pub fn unit_defines_contract(u: &SourceUnit, name: &str) -> (r: bool)
    ensures
        r == defines_contract(*u, name@),
{
    let mut k: usize = 0;
    while k < u.nodes.len()
        invariant
            k <= u.nodes@.len(),
            forall|j: int|
                0 <= j < k ==> !is_contract_named(#[trigger] u.nodes@[j], name@),
        decreases u.nodes@.len() - k,
    {
        if let SourceUnitNode::ContractDefinition(c) = &u.nodes[k] {
            if str_eq(c.name.as_str(), name) {
                return true;
            }
        }
        k = k + 1;
    }
    false
}

/// A loaded unit is kept where no contract is named, or where it defines
/// one of the named contracts.
pub open spec fn kept(u: SourceUnit, names: Seq<Seq<char>>) -> bool {
    names.len() == 0 || exists|i: int| 0 <= i < names.len() && defines_contract(u, #[trigger] names[i])
}

pub fn keeps_unit(u: &SourceUnit, names: &Vec<String>) -> (r: bool)
    ensures
        r == kept(*u, names@.map_values(|s: String| s@)),
{
    let ghost ns = names@.map_values(|s: String| s@);
    if names.len() == 0 {
        return true;
    }
    let mut i: usize = 0;
    while i < names.len()
        invariant
            i <= names@.len(),
            ns == names@.map_values(|s: String| s@),
            forall|j: int| 0 <= j < i ==> !defines_contract(*u, #[trigger] ns[j]),
        decreases names@.len() - i,
    {
        if unit_defines_contract(u, names[i].as_str()) {
            assert(ns[i as int] == names@[i as int]@);
            return true;
        }
        assert(ns[i as int] == names@[i as int]@);
        i = i + 1;
    }
    false
}

/// Whether some unit of `units` has the path `path` (both may be missing).
pub open spec fn has_path(units: Seq<SourceUnit>, path: Option<String>) -> bool {
    exists|i: int| 0 <= i < units.len() && opt_text(#[trigger] units[i].absolute_path) == opt_text(path)
}

pub open spec fn opt_text(p: Option<String>) -> Option<Seq<char>> {
    match p {
        Some(s) => Some(s@),
        None => None,
    }
}

pub fn has_unit_with_path(units: &Vec<SourceUnit>, path: &Option<String>) -> (r: bool)
    ensures
        r == has_path(units@, *path),
{
    let mut i: usize = 0;
    while i < units.len()
        invariant
            i <= units@.len(),
            forall|j: int| 0 <= j < i ==> opt_text(#[trigger] units@[j].absolute_path) != opt_text(*path),
        decreases units@.len() - i,
    {
        let same = match (&units[i].absolute_path, path) {
            (Some(a), Some(b)) => str_eq(a.as_str(), b.as_str()),
            (None, None) => true,
            _ => false,
        };
        if same {
            return true;
        }
        i = i + 1;
    }
    false
}

/// A unit's path, the empty path where it has none.
pub open spec fn path_text(p: Option<String>) -> Seq<char> {
    match p {
        Some(s) => s@,
        None => Seq::empty(),
    }
}

/// Whether a unit's path (the empty path where it has none) ends with `suffix`.
pub fn path_ends_with(path: &Option<String>, suffix: &str) -> (r: bool)
    ensures
        r == is_suffix(suffix@, path_text(*path)),
{
    match path {
        Some(p) => {
            ends_with(p.as_str(), suffix)
        },
        None => {
            let e = "";
            proof { reveal_strlit(""); }
            assert(e@ =~= Seq::<char>::empty());
            ends_with(e, suffix)
        },
    }
}

} // verus!
