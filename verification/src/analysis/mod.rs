//! The analyses, and what they share: the context a finding is made in and
//! the output findings go to.
use vstd::prelude::*;
use crate::ast::{ContractDefinition, ContractDefinitionNode, SourceUnit};
use crate::render::{decimal_digits, spec_source_line, source_line, usize_to_string, AnalysisError};
use crate::report::{EntryView, Report};

pub mod no_spdx_identifier;
pub mod floating_solidity_version;
pub mod abstract_contracts;
pub mod large_literals;
pub mod require_without_message;
pub mod assert_usage;
pub mod selfdestruct_usage;
pub mod divide_before_multiply;
pub mod redundant_imports;
pub mod unrestricted_setter_functions;
pub mod ineffectual_statements;
pub mod address_zero;
pub mod address_balance;
pub mod manipulatable_balance_usage;
pub mod array_assignment;
pub mod unpaid_payable_functions;
pub mod secure_ether_transfer;
pub mod raw_address_transfer;
pub mod safe_erc20_functions;
pub mod unused_return;
pub mod state_variable_shadowing;
pub mod redundant_assignments;
pub mod unchecked_erc20_transfer;
pub mod inline_assembly;
pub mod missing_return;
pub mod explicit_variable_return;
pub mod unchecked_casting;
pub mod unnecessary_pragmas;
pub mod comparison_utilization;
pub mod redundant_comparisons;
pub mod unnecessary_comparisons;
pub mod tight_variable_packing;
pub mod unreferenced_state_variables;
pub mod state_variable_mutability;
pub mod check_effects_interactions;
pub mod external_calls_in_loop;
pub mod storage_array_loop;
pub mod redundant_getter_function;
pub mod invalid_using_for_directives;
pub mod abi_encoding;
pub mod assignment_comparisons;
pub mod redundant_state_variable_access;
pub mod visitor;

verus! {

/// The source unit being analysed, among all the source units of the project.
pub struct UnitCtx<'a> {
    pub units: &'a Vec<SourceUnit>,
    pub unit: &'a SourceUnit,
}

/// A definition of a contract being analysed: the contract and the node of
/// it (function, modifier, variable, ...) that is being walked.
pub struct DefCtx<'a> {
    pub units: &'a Vec<SourceUnit>,
    pub unit: &'a SourceUnit,
    pub contract: &'a ContractDefinition,
    pub node: &'a ContractDefinitionNode,
}

/// The pieces of a path between its `/` separators, in order (an empty
/// piece where two separators meet, or at either end).
pub open spec fn path_pieces(p: Seq<char>) -> Seq<Seq<char>>
    decreases p.len(),
{
    if p.len() == 0 {
        seq![Seq::empty()]
    } else {
        let c = path_pieces(p.drop_last());
        if p.last() == '/' {
            c.push(Seq::empty())
        } else {
            c.update(c.len() - 1, c.last().push(p.last()))
        }
    }
}

/// Whether a piece names a component of the path: empty pieces never do, and
/// `.` only as the first piece.
pub open spec fn kept_piece(x: Seq<char>, first: bool) -> bool {
    x.len() > 0 && (x != "."@ || first)
}

/// The components among the first `n` pieces, joined by `/`.
pub open spec fn joined(cs: Seq<Seq<char>>, n: int) -> Seq<char>
    decreases n,
{
    if n <= 0 {
        Seq::empty()
    } else {
        let j = joined(cs, n - 1);
        if kept_piece(cs[n - 1], n - 1 == 0) {
            if j.len() == 0 {
                cs[n - 1]
            } else {
                j + "/"@ + cs[n - 1]
            }
        } else {
            j
        }
    }
}

/// A path in the form that names its components once: repeated separators,
/// a trailing separator and `.` components past the first are dropped. Two
/// paths name the same file for the report exactly when these agree.
pub open spec fn normal_path(p: Seq<char>) -> Seq<char> {
    (if p.len() > 0 && p[0] == '/' {
        "/"@
    } else {
        Seq::empty()
    }) + joined(path_pieces(p), path_pieces(p).len() as int)
}

/// The path a source unit's findings are filed under: its absolute path in
/// normal form, or the empty path where it has none.
pub open spec fn unit_path(u: SourceUnit) -> Seq<char> {
    match u.absolute_path {
        Some(p) => normal_path(p@),
        None => Seq::empty(),
    }
}

proof fn lemma_pieces_len(p: Seq<char>)
    ensures
        path_pieces(p).len() >= 1,
    decreases p.len(),
{
    if p.len() > 0 {
        lemma_pieces_len(p.drop_last());
    }
}

/// Joining depends only on the pieces joined.
proof fn lemma_joined_prefix(a: Seq<Seq<char>>, b: Seq<Seq<char>>, n: int)
    requires
        0 <= n <= a.len(),
        n <= b.len(),
        forall|i: int| 0 <= i < n ==> a[i] == b[i],
    ensures
        joined(a, n) == joined(b, n),
    decreases n,
{
    if n > 0 {
        lemma_joined_prefix(a, b, n - 1);
    }
}

/// A normal path is empty exactly where the path is, and otherwise starts
/// with the character the path starts with.
pub proof fn lemma_normal_path_first(p: Seq<char>)
    ensures
        p.len() == 0 ==> normal_path(p).len() == 0,
        p.len() > 0 ==> normal_path(p).len() > 0 && normal_path(p)[0] == p[0],
{
    lemma_pieces_len(p);
    if p.len() == 0 {
        let cs = path_pieces(p);
        assert(cs =~= seq![Seq::<char>::empty()]);
        assert(joined(cs, 0) == Seq::<char>::empty());
        assert(joined(cs, 1) == joined(cs, 0));
    } else if p[0] != '/' {
        let cs = path_pieces(p);
        lemma_pieces_first(p);
        lemma_joined_first(cs, cs.len() as int);
        assert(normal_path(p) =~= joined(cs, cs.len() as int));
    } else {
        reveal_strlit("/");
        let j = joined(path_pieces(p), path_pieces(p).len() as int);
        assert(("/"@ + j)[0] == '/');
    }
}

/// Where the first piece is a component, every join of pieces that includes
/// it starts with it.
proof fn lemma_joined_first(cs: Seq<Seq<char>>, n: int)
    requires
        1 <= n <= cs.len(),
        kept_piece(cs[0], true),
    ensures
        joined(cs, n).len() > 0,
        joined(cs, n)[0] == cs[0][0],
    decreases n,
{
    if n == 1 {
        assert(joined(cs, 0) == Seq::<char>::empty());
    } else {
        lemma_joined_first(cs, n - 1);
    }
}

proof fn lemma_pieces_first(p: Seq<char>)
    requires
        p.len() > 0,
        p[0] != '/',
    ensures
        path_pieces(p)[0].len() > 0,
        path_pieces(p)[0][0] == p[0],
    decreases p.len(),
{
    let d = p.drop_last();
    lemma_pieces_len(d);
    let c = path_pieces(d);
    if p.len() == 1 {
        assert(d =~= Seq::<char>::empty());
        assert(c =~= seq![Seq::<char>::empty()]);
        assert(path_pieces(p) == c.update(0, c[0].push(p.last())));
    } else {
        lemma_pieces_first(d);
        if p.last() == '/' {
            assert(path_pieces(p) == c.push(Seq::empty()));
        } else {
            let q = c.update(c.len() - 1, c.last().push(p.last()));
            assert(path_pieces(p) == q);
            if c.len() == 1 {
                assert(q[0] == c[0].push(p.last()));
            } else {
                assert(q[0] == c[0]);
            }
        }
    }
}

/// The path a source unit's findings are filed under, computed.
pub fn path_of(u: &SourceUnit) -> (r: String)
    ensures
        r@ == unit_path(*u),
{
    match &u.absolute_path {
        Some(p) => normalize_path(p.as_str()),
        None => String::new(),
    }
}

/// `p` in normal form.
pub fn normalize_path(p: &str) -> (r: String)
    ensures
        r@ == normal_path(p@),
{
    let n = p.unicode_len();
    let mut out = String::new();
    let mut start: usize = 0;
    let mut k: usize = 0;
    let mut i: usize = 0;
    proof {
        assert(p@.take(0) =~= Seq::<char>::empty());
        assert(p@.subrange(0, 0) =~= Seq::<char>::empty());
    }
    while i < n
        invariant
            n == p@.len(),
            start <= i <= n,
            k <= i,
            path_pieces(p@.take(i as int)).len() == k + 1,
            path_pieces(p@.take(i as int))[k as int] == p@.subrange(start as int, i as int),
            out@ == joined(path_pieces(p@.take(i as int)), k as int),
        decreases n - i,
    {
        let ghost cs = path_pieces(p@.take(i as int));
        let c = p.get_char(i);
        assert(p@.take(i + 1).drop_last() =~= p@.take(i as int));
        assert(p@.take(i + 1).last() == c);
        if c == '/' {
            let piece = p.substring_char(start, i);
            proof {
                reveal_strlit(".");
                lemma_joined_prefix(cs, path_pieces(p@.take(i + 1)), k as int);
            }
            let keep = piece.unicode_len() > 0 && (!crate::text::str_eq(piece, ".") || k == 0);
            if keep {
                if out.unicode_len() > 0 {
                    out = out.concat("/");
                }
                out = out.concat(piece);
            }
            assert(out@ == joined(path_pieces(p@.take(i + 1)), k + 1));
            start = i + 1;
            k = k + 1;
            assert(p@.subrange(start as int, i + 1) =~= Seq::<char>::empty());
        } else {
            proof {
                lemma_joined_prefix(cs, path_pieces(p@.take(i + 1)), k as int);
                assert(p@.subrange(start as int, i + 1) =~= p@.subrange(start as int, i as int).push(c));
            }
        }
        i = i + 1;
    }
    let piece = p.substring_char(start, n);
    assert(p@.take(n as int) =~= p@);
    proof { reveal_strlit("."); }
    let keep = piece.unicode_len() > 0 && (!crate::text::str_eq(piece, ".") || k == 0);
    if keep {
        if out.unicode_len() > 0 {
            out = out.concat("/");
        }
        out = out.concat(piece);
    }
    assert(out@ == joined(path_pieces(p@), k + 1));
    if n > 0 && p.get_char(0) == '/' {
        String::from_str("/").concat(out.as_str())
    } else {
        assert(out@ =~= Seq::<char>::empty() + out@);
        out
    }
}

/// `after` is `before` with, where `found` holds, the line `text` printed
/// after a tab and the line where `src` starts; `ok` tells whether that line
/// could be found (where it could not, nothing is printed).
pub open spec fn printed_at_if(
    before: Output,
    after: Output,
    unit: SourceUnit,
    src: Seq<char>,
    found: bool,
    text: Seq<char>,
    ok: bool,
) -> bool {
    &&& after.report == before.report
    &&& !found ==> after.printed == before.printed && ok
    &&& found ==> (ok <==> spec_source_line(unit, src) is Ok)
    &&& found && ok ==> after.printed@.len() == before.printed@.len() + 1 && after.printed@.last()@ == "\tL"@
        + decimal_digits(spec_source_line(unit, src)->Ok_0 as nat) + ": "@ + text && after.printed@.drop_last()
        == before.printed@
    &&& found && !ok ==> after.printed == before.printed
}

/// `after` is `before` with, where `found` holds, the finding `text` filed
/// under the unit's path at the line where `src` starts; `ok` tells whether
/// that line could be found (where it could not, nothing is filed).
pub open spec fn reported_at_if(
    before: Output,
    after: Output,
    unit: SourceUnit,
    src: Seq<char>,
    found: bool,
    text: Seq<char>,
    ok: bool,
) -> bool {
    &&& after.printed == before.printed
    &&& !found ==> after.report == before.report && ok
    &&& found ==> (ok <==> spec_source_line(unit, src) is Ok)
    &&& found && ok ==> after.report.entries_of(unit_path(unit)) == before.report.entries_of(unit_path(unit)).push(
        (Some(spec_source_line(unit, src)->Ok_0 as usize), text),
    ) && forall|p: Seq<char>| p != unit_path(unit) ==> after.report.entries_of(p) == before.report.entries_of(p)
    &&& found && !ok ==> after.report == before.report
}

/// Where findings go: the report, and the lines that analyses print directly.
pub struct Output {
    pub report: Report,
    pub printed: Vec<String>,
}

impl Output {
    pub open spec fn wf(&self) -> bool {
        self.report.wf()
    }

    /// `later` keeps everything `self` holds: each file's findings and the
    /// printed lines of `self` begin those of `later`, in the same order.
    pub open spec fn extends(&self, later: Output) -> bool {
        &&& self.printed@.is_prefix_of(later.printed@)
        &&& forall|p: Seq<char>| #[trigger] self.report.entries_of(p).is_prefix_of(later.report.entries_of(p))
    }

    pub fn new() -> (r: Output)
        ensures
            r.wf(),
            r.report@.len() == 0,
            r.printed@.len() == 0,
    {
        Output { report: Report::new(), printed: Vec::new() }
    }

    /// Files `text` under the path of `unit`, with the line `line`.
    pub fn add(&mut self, unit: &SourceUnit, line: Option<usize>, text: String)
        requires
            old(self).wf(),
        ensures
            final(self).wf(),
            old(self).extends(*final(self)),
            final(self).printed == old(self).printed,
            final(self).report.entries_of(unit_path(*unit)) == old(self).report.entries_of(
                unit_path(*unit),
            ).push((line, text@)),
            forall|p: Seq<char>|
                p != unit_path(*unit) ==> final(self).report.entries_of(p)
                    == old(self).report.entries_of(p),
    {
        self.report.add_entry(path_of(unit), line, text);
        proof {
            let o = *old(self);
            assert(o.printed@.is_prefix_of(self.printed@));
            assert forall|p: Seq<char>| #[trigger] o.report.entries_of(p).is_prefix_of(self.report.entries_of(p)) by {
                if p == unit_path(*unit) {
                    assert(self.report.entries_of(p).subrange(0, o.report.entries_of(p).len() as int) =~= o.report.entries_of(p));
                }
            }
        }
    }

    /// Files `text` under the path of `unit`, at the line where the source
    /// range `src` starts; fails, changing nothing, where that line cannot be found.
    pub fn add_at(&mut self, unit: &SourceUnit, src: &str, text: String) -> (r: Result<(), AnalysisError>)
        requires
            old(self).wf(),
        ensures
            final(self).wf(),
            old(self).extends(*final(self)),
            final(self).printed == old(self).printed,
            r is Ok <==> spec_source_line(*unit, src@) is Ok,
            r is Ok ==> final(self).report.entries_of(unit_path(*unit)) == old(self).report.entries_of(
                unit_path(*unit),
            ).push((Some(spec_source_line(*unit, src@)->Ok_0 as usize), text@)),
            r is Err ==> final(self).report == old(self).report,
            forall|p: Seq<char>|
                p != unit_path(*unit) ==> final(self).report.entries_of(p)
                    == old(self).report.entries_of(p),
    {
        let line = match source_line(unit, src) {
            Ok(l) => l,
            Err(e) => {
                proof { Output::lemma_extends_refl(*self); }
                return Err(e);
            },
        };
        self.add(unit, Some(line), text);
        Ok(())
    }

    /// Prints `text` directly, after a tab and the line where the source range
    /// `src` starts (`\tL<line>: <text>`); fails, printing nothing, where that
    /// line cannot be found.
    pub fn print_at(&mut self, unit: &SourceUnit, src: &str, text: String) -> (r: Result<(), AnalysisError>)
        requires
            old(self).wf(),
        ensures
            final(self).wf(),
            old(self).extends(*final(self)),
            final(self).report == old(self).report,
            r is Ok <==> spec_source_line(*unit, src@) is Ok,
            r is Ok ==> final(self).printed@.len() == old(self).printed@.len() + 1
                && final(self).printed@.last()@ == "\tL"@ + decimal_digits(
                spec_source_line(*unit, src@)->Ok_0 as nat,
            ) + ": "@ + text@
                && final(self).printed@.drop_last() == old(self).printed@,
            r is Err ==> final(self).printed == old(self).printed,
    {
        let line = match source_line(unit, src) {
            Ok(l) => l,
            Err(e) => {
                proof { Output::lemma_extends_refl(*self); }
                return Err(e);
            },
        };
        proof { Output::lemma_extends_refl(*self); }
        let s = String::from_str("\tL").concat(usize_to_string(line).as_str()).concat(": ").concat(
            text.as_str(),
        );
        self.printed.push(s);
        assert(old(self).printed@.is_prefix_of(self.printed@));
        Ok(())
    }

    /// Prints `line` directly.
    pub fn print(&mut self, line: String)
        requires
            old(self).wf(),
        ensures
            final(self).wf(),
            old(self).extends(*final(self)),
            final(self).report == old(self).report,
            final(self).printed@ == old(self).printed@.push(line),
    {
        proof { Output::lemma_extends_refl(*self); }
        self.printed.push(line);
        assert(old(self).printed@.is_prefix_of(self.printed@));
    }

    /// Every output extends itself.
    pub proof fn lemma_extends_refl(o: Output)
        ensures
            o.extends(o),
    {
        assert(o.printed@.is_prefix_of(o.printed@));
        assert forall|p: Seq<char>| #[trigger] o.report.entries_of(p).is_prefix_of(o.report.entries_of(p)) by {
            assert(o.report.entries_of(p).subrange(0, o.report.entries_of(p).len() as int) =~= o.report.entries_of(p));
        }
    }

    /// An output whose report is unchanged and whose printed lines only grew
    /// extends the one it came from.
    pub proof fn lemma_extends_printed(a: Output, b: Output)
        requires
            a.report == b.report,
            a.printed@.is_prefix_of(b.printed@),
        ensures
            a.extends(b),
    {
        assert forall|p: Seq<char>| #[trigger] a.report.entries_of(p).is_prefix_of(b.report.entries_of(p)) by {
            assert(b.report.entries_of(p).subrange(0, a.report.entries_of(p).len() as int) =~= a.report.entries_of(p));
        }
    }

    /// Extending is transitive: what `a` holds stays through `b` into `c`.
    pub proof fn lemma_extends_trans(a: Output, b: Output, c: Output)
        requires
            a.extends(b),
            b.extends(c),
        ensures
            a.extends(c),
    {
        assert(a.printed@.is_prefix_of(c.printed@)) by {
            assert(c.printed@.subrange(0, a.printed@.len() as int) =~= c.printed@.subrange(0, b.printed@.len() as int).subrange(0, a.printed@.len() as int));
        }
        assert forall|p: Seq<char>| #[trigger] a.report.entries_of(p).is_prefix_of(c.report.entries_of(p)) by {
            let x = a.report.entries_of(p);
            let y = b.report.entries_of(p);
            let z = c.report.entries_of(p);
            assert(x.is_prefix_of(y));
            assert(y.is_prefix_of(z));
            assert(z.subrange(0, x.len() as int) =~= z.subrange(0, y.len() as int).subrange(0, x.len() as int));
        }
    }
}

/// The printed lines of an output, as text.
pub open spec fn printed_texts(o: Output) -> Seq<Seq<char>> {
    o.printed@.map_values(|s: String| s@)
}

/// The line printed for `text` at the line where `src` starts in `unit`.
pub open spec fn line_text(unit: SourceUnit, src: Seq<char>, text: Seq<char>) -> Seq<char> {
    "\tL"@ + decimal_digits(spec_source_line(unit, src)->Ok_0 as nat) + ": "@ + text
}

/// `xs` where `b` holds, nothing otherwise.
pub open spec fn only_if<A>(b: bool, xs: Seq<A>) -> Seq<A> {
    if b {
        xs
    } else {
        Seq::empty()
    }
}

/// A finding printed where it is found: its source range and its text.
pub open spec fn found_line(found: bool, src: Seq<char>, text: Seq<char>) -> Option<(Seq<char>, Seq<char>)> {
    if found {
        Some((src, text))
    } else {
        None
    }
}

/// The line a finding prints, if any.
pub open spec fn opt_line(unit: SourceUnit, p: Option<(Seq<char>, Seq<char>)>) -> Seq<Seq<char>> {
    match p {
        Some(x) => seq![line_text(unit, x.0, x.1)],
        None => Seq::empty(),
    }
}

/// Whether the line of a finding, if any, can be found.
pub open spec fn line_ok(unit: SourceUnit, p: Option<(Seq<char>, Seq<char>)>) -> bool {
    match p {
        Some(x) => spec_source_line(unit, x.0) is Ok,
        None => true,
    }
}

/// `after` is `before` with the findings `p1` then `p2` printed; `ok` tells
/// whether all their lines could be found (the first that cannot ends the
/// printing).
pub open spec fn printed_two(
    before: Output,
    after: Output,
    unit: SourceUnit,
    p1: Option<(Seq<char>, Seq<char>)>,
    p2: Option<(Seq<char>, Seq<char>)>,
    ok: bool,
) -> bool {
    &&& after.report == before.report
    &&& ok <==> (line_ok(unit, p1) && line_ok(unit, p2))
    &&& ok ==> printed_texts(after) == printed_texts(before) + opt_line(unit, p1) + opt_line(unit, p2)
    &&& !ok ==> printed_texts(after) == printed_texts(before) + if line_ok(unit, p1) {
        opt_line(unit, p1)
    } else {
        Seq::empty()
    }
}

/// One `printed_at_if` step, read as a finding printed or not.
pub proof fn lemma_printed_step(
    before: Output,
    after: Output,
    unit: SourceUnit,
    src: Seq<char>,
    found: bool,
    text: Seq<char>,
    ok: bool,
)
    requires
        printed_at_if(before, after, unit, src, found, text, ok),
    ensures
        after.report == before.report,
        ok <==> line_ok(unit, found_line(found, src, text)),
        ok ==> printed_texts(after) == printed_texts(before) + opt_line(unit, found_line(found, src, text)),
        !ok ==> printed_texts(after) == printed_texts(before),
{
    if found && ok {
        assert(printed_texts(after) =~= printed_texts(before) + opt_line(unit, found_line(found, src, text)));
    } else if !found {
        assert(printed_texts(after) =~= printed_texts(before) + opt_line(unit, found_line(found, src, text)));
    } else {
        assert(printed_texts(after) =~= printed_texts(before));
    }
}

/// The entry a finding files, if any.
pub open spec fn opt_entry(unit: SourceUnit, p: Option<(Seq<char>, Seq<char>)>) -> Seq<EntryView> {
    match p {
        Some(x) => seq![(Some(spec_source_line(unit, x.0)->Ok_0 as usize), x.1)],
        None => Seq::empty(),
    }
}

/// One `reported_at_if` step, read as a finding filed or not.
pub proof fn lemma_reported_step(
    before: Output,
    after: Output,
    unit: SourceUnit,
    src: Seq<char>,
    found: bool,
    text: Seq<char>,
    ok: bool,
)
    requires
        reported_at_if(before, after, unit, src, found, text, ok),
    ensures
        after.printed == before.printed,
        ok <==> line_ok(unit, found_line(found, src, text)),
        ok ==> after.report.entries_of(unit_path(unit)) == before.report.entries_of(unit_path(unit)) + opt_entry(
            unit,
            found_line(found, src, text),
        ),
        !ok ==> after.report == before.report,
{
    let path = unit_path(unit);
    assert(after.report.entries_of(path) =~= before.report.entries_of(path) + opt_entry(unit, found_line(found, src, text))
        || !ok);
}

/// `after` holds, for every path but `path`, the findings `before` holds.
pub open spec fn only_under(before: Output, after: Output, path: Seq<char>) -> bool {
    forall|p: Seq<char>| p != path ==> #[trigger] after.report.entries_of(p) == before.report.entries_of(p)
}

/// Chains of outputs that change nothing outside `path` change nothing
/// outside `path`.
pub broadcast proof fn lemma_only_under_chain(a: Output, b: Output, c: Output, path: Seq<char>)
    requires
        #[trigger] only_under(a, b, path),
        #[trigger] only_under(b, c, path),
    ensures
        only_under(a, c, path),
{
}

/// Extending chains: what one output holds stays in every later one.
pub broadcast proof fn lemma_extends_chain(a: Output, b: Output, c: Output)
    requires
        #[trigger] a.extends(b),
        #[trigger] b.extends(c),
    ensures
        a.extends(c),
{
    Output::lemma_extends_trans(a, b, c);
}

} // verus!
