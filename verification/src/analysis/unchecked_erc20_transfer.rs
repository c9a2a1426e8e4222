//! ERC-20 transfers whose amount is not checked to be non-zero first, counted
//! per function.
use vstd::prelude::*;
use crate::analysis::{printed_at_if, DefCtx, Output};
use crate::ast::{BlockOrStatement, Expression, FunctionCall, FunctionDefinition, IfStatement, NodeId};
use crate::query::{
    definition_id, find_function_and_contract, first_function, function_or_modifier_id, ident_named,
    is_identifier_named, referenced_declarations, refs,
};
use crate::render::{definition_node_location, AnalysisError};
use crate::text::{ascii_lower, eq_ascii_lowercase, str_eq};

verus! {

/// A contract name that, lower-cased, is `erc20` or `ierc20`.
pub open spec fn is_erc20_interface_name(name: Seq<char>) -> bool {
    let l = name.map_values(|c: char| ascii_lower(c));
    l == "erc20"@ || l == "ierc20"@
}

/// The identifier `id` refers to `transfer` or `transferFrom` of an ERC-20 contract.
pub open spec fn is_erc20_transfer(units: Seq<crate::ast::SourceUnit>, id: NodeId) -> bool {
    match first_function(units, id) {
        Some((c, f)) => is_erc20_interface_name(c.name@) && (f.name@ == "transfer"@ || f.name@
            == "transferFrom"@),
        None => false,
    }
}

/// Whether a contract is an ERC-20 interface does not depend on the case of
/// its name's letters, and `ERC20` and `IERC20` are ones.
pub proof fn lemma_erc20_names_ignore_case(a: Seq<char>, b: Seq<char>)
    ensures
        a.len() == b.len() && (forall|i: int| 0 <= i < a.len() ==> ascii_lower(#[trigger] a[i]) == ascii_lower(b[i]))
            ==> is_erc20_interface_name(a) == is_erc20_interface_name(b),
        is_erc20_interface_name("ERC20"@),
        is_erc20_interface_name("IERC20"@),
{
    if a.len() == b.len() && (forall|i: int| 0 <= i < a.len() ==> ascii_lower(#[trigger] a[i]) == ascii_lower(b[i])) {
        assert(a.map_values(|c: char| ascii_lower(c)) =~= b.map_values(|c: char| ascii_lower(c)));
    }
    reveal_strlit("ERC20");
    reveal_strlit("IERC20");
    reveal_strlit("erc20");
    reveal_strlit("ierc20");
    assert("ERC20"@.map_values(|c: char| ascii_lower(c)) =~= "erc20"@);
    assert("IERC20"@.map_values(|c: char| ascii_lower(c)) =~= "ierc20"@);
}

/// A reference to a function of a contract named `ERC20` or `IERC20` (in any
/// case) counts as one transfer when the function is `transfer` or
/// `transferFrom`, and as none otherwise; a reference to anything else is
/// never a transfer.
pub proof fn lemma_transfer_functions_counted(units: Seq<crate::ast::SourceUnit>, id: NodeId)
    ensures
        first_function(units, id) matches Some(p) && is_erc20_interface_name(p.0.name@) ==> transfer_count(units, seq![id])
            == if first_function(units, id)->Some_0.1.name@ == "transfer"@ || first_function(units, id)->Some_0.1.name@
            == "transferFrom"@ {
            1nat
        } else {
            0nat
        },
        !(first_function(units, id) matches Some(p) && is_erc20_interface_name(p.0.name@)) ==> transfer_count(units, seq![id])
            == 0,
{
    assert(seq![id].drop_last() =~= Seq::<NodeId>::empty());
    assert(transfer_count(units, Seq::<NodeId>::empty()) == 0);
    assert(seq![id].last() == id);
    assert(transfer_count(units, seq![id]) == if is_erc20_transfer(units, id) {
        1nat
    } else {
        0nat
    });
}

/// How many of `ids` refer to an ERC-20 transfer.
pub open spec fn transfer_count(units: Seq<crate::ast::SourceUnit>, ids: Seq<NodeId>) -> nat
    decreases ids.len(),
{
    if ids.len() == 0 {
        0
    } else {
        transfer_count(units, ids.drop_last()) + if is_erc20_transfer(units, ids.last()) {
            1nat
        } else {
            0nat
        }
    }
}

/// The declarations that a condition checks to be non-zero: the left side of
/// each `> 0` or `!= 0` comparison, reached through `&&` and `||`.
pub open spec fn zero_checked(e: Expression) -> Seq<NodeId>
    decreases e,
{
    match e {
        Expression::BinaryOperation(b) => if b.operator@ == "&&"@ || b.operator@ == "||"@ {
            zero_checked(*b.left_expression) + zero_checked(*b.right_expression)
        } else if (b.operator@ == ">"@ || b.operator@ == "!="@) && refs(*b.left_expression).len() > 0 && (
        match *b.right_expression {
            Expression::Literal(l) => l.value matches Some(v) && v@ == "0"@,
            _ => false,
        }) {
            seq![refs(*b.left_expression).last()]
        } else {
            Seq::empty()
        },
        _ => Seq::empty(),
    }
}

/// The declaration whose amount a transfer passes: the last one its last
/// argument refers to, or 0 where it refers to none.
pub open spec fn amount_declaration(args: Seq<Expression>) -> NodeId {
    let r = refs(args.last());
    if r.len() > 0 {
        r.last()
    } else {
        0
    }
}

/// Whether one of the blocks `blocks` has checked the declaration `d`.
pub open spec fn checked_in(verified: Set<(NodeId, NodeId)>, blocks: Seq<NodeId>, d: NodeId) -> bool
    decreases blocks.len(),
{
    blocks.len() > 0 && (checked_in(verified, blocks.drop_last(), d) || verified.contains((blocks.last(), d)))
}

/// What one ERC-20 transfer adds to its function's count: one where no
/// enclosing block has checked the amount, none where one has, or where the
/// amount is a literal or missing.
pub open spec fn transfer_increment(verified: Set<(NodeId, NodeId)>, blocks: Seq<NodeId>, args: Seq<Expression>) -> nat {
    if args.len() == 0 || args.last() is Literal {
        0
    } else if checked_in(verified, blocks, amount_declaration(args)) {
        0
    } else {
        1
    }
}

/// `n` added to `c`, stopping at the largest `u64`.
pub open spec fn saturating(c: int, n: nat) -> u64 {
    if c + n > u64::MAX {
        u64::MAX
    } else {
        (c + n) as u64
    }
}

/// The message for a function whose count of unchecked transfers is `count`.
pub open spec fn unchecked_text(location: Seq<char>, count: u64) -> Seq<char> {
    location + " makes "@ + if count == 1 {
        "an ERC-20 transfer"@
    } else {
        "ERC-20 transfers"@
    } + " without checking the "@ + if count == 1 {
        "amount"@
    } else {
        "amounts"@
    } + ", which can revert "@ + if count == 1 {
        "if"@
    } else {
        "if any are"@
    } + " zero"@
}

/// A block among the first `k` that checked `d` is one among all of them.
proof fn lemma_checked_in_prefix(verified: Set<(NodeId, NodeId)>, blocks: Seq<NodeId>, k: int, d: NodeId)
    requires
        0 <= k <= blocks.len(),
        checked_in(verified, blocks.take(k), d),
    ensures
        checked_in(verified, blocks, d),
    decreases blocks.len() - k,
{
    if k < blocks.len() {
        assert(blocks.take(k + 1).drop_last() =~= blocks.take(k));
        lemma_checked_in_prefix(verified, blocks, k + 1, d);
    } else {
        assert(blocks.take(k) =~= blocks);
    }
}

pub struct UncheckedERC20TransferVisitor {
    /// The declarations each block has checked to be non-zero: (block, declaration).
    pub verified_declarations: Vec<(NodeId, NodeId)>,
    /// For each function walked, how many unchecked transfers it makes.
    pub occurrences: Vec<(NodeId, u64)>,
}

fn zero_checked_declarations(e: &Expression) -> (r: Vec<NodeId>)
    ensures
        r@ == zero_checked(*e),
    decreases e,
{
    match e {
        Expression::BinaryOperation(b) => {
            if str_eq(b.operator.as_str(), "&&") || str_eq(b.operator.as_str(), "||") {
                let mut l = zero_checked_declarations(&b.left_expression);
                let mut r = zero_checked_declarations(&b.right_expression);
                l.append(&mut r);
                l
            } else if str_eq(b.operator.as_str(), ">") || str_eq(b.operator.as_str(), "!=") {
                let ids = referenced_declarations(&b.left_expression);
                let zero = match &*b.right_expression {
                    Expression::Literal(l) => match &l.value {
                        Some(v) => str_eq(v.as_str(), "0"),
                        None => false,
                    },
                    _ => false,
                };
                if ids.len() > 0 && zero {
                    let mut r: Vec<NodeId> = Vec::new();
                    r.push(ids[ids.len() - 1]);
                    assert(r@ =~= seq![refs(*b.left_expression).last()]);
                    r
                } else {
                    Vec::new()
                }
            } else {
                Vec::new()
            }
        },
        _ => Vec::new(),
    }
}

impl UncheckedERC20TransferVisitor {
    /// A function is counted once.
    pub open spec fn wf(&self) -> bool {
        forall|i: int, j: int|
            0 <= i < j < self.occurrences@.len() ==> (#[trigger] self.occurrences@[i]).0
                != (#[trigger] self.occurrences@[j]).0
    }

    pub open spec fn verified(&self) -> Set<(NodeId, NodeId)> {
        self.verified_declarations@.to_set()
    }

    /// The count of the function `id`, where it was walked.
    pub open spec fn count_of(&self, id: NodeId) -> Option<u64> {
        if exists|k: int| 0 <= k < self.occurrences@.len() && (#[trigger] self.occurrences@[k]).0 == id {
            Some(self.occurrences@[choose|k: int| 0 <= k < self.occurrences@.len() && (#[trigger] self.occurrences@[k]).0 == id].1)
        } else {
            None
        }
    }

    pub fn new() -> (r: Self)
        ensures
            r.wf(),
            r.verified() == Set::<(NodeId, NodeId)>::empty(),
            forall|id: NodeId| r.count_of(id) is None,
    {
        let r = UncheckedERC20TransferVisitor { verified_declarations: Vec::new(), occurrences: Vec::new() };
        assert(r.verified() =~= Set::<(NodeId, NodeId)>::empty());
        r
    }

    proof fn lemma_count_at(&self, k: int)
        requires
            self.wf(),
            0 <= k < self.occurrences@.len(),
        ensures
            self.count_of(self.occurrences@[k].0) == Some(self.occurrences@[k].1),
    {
        let id = self.occurrences@[k].0;
        let j = choose|j: int| 0 <= j < self.occurrences@.len() && (#[trigger] self.occurrences@[j]).0 == id;
        if j != k {
            if j < k {
                assert(self.occurrences@[j].0 != self.occurrences@[k].0);
            } else {
                assert(self.occurrences@[k].0 != self.occurrences@[j].0);
            }
        }
    }

    fn find(&self, id: NodeId) -> (r: Option<usize>)
        ensures
            r matches Some(k) ==> k < self.occurrences@.len() && self.occurrences@[k as int].0 == id,
            r is None ==> forall|k: int| 0 <= k < self.occurrences@.len() ==> self.occurrences@[k].0 != id,
    {
        let mut k: usize = 0;
        while k < self.occurrences.len()
            invariant
                k <= self.occurrences@.len(),
                forall|j: int| 0 <= j < k ==> self.occurrences@[j].0 != id,
            decreases self.occurrences@.len() - k,
        {
            if self.occurrences[k].0 == id {
                return Some(k);
            }
            k = k + 1;
        }
        None
    }

    fn is_verified(&self, block: NodeId, d: NodeId) -> (r: bool)
        ensures
            r == self.verified().contains((block, d)),
    {
        let mut k: usize = 0;
        while k < self.verified_declarations.len()
            invariant
                k <= self.verified_declarations@.len(),
                forall|j: int| 0 <= j < k ==> self.verified_declarations@[j] != (block, d),
            decreases self.verified_declarations@.len() - k,
        {
            if self.verified_declarations[k].0 == block && self.verified_declarations[k].1 == d {
                assert(self.verified_declarations@.contains((block, d)));
                return true;
            }
            k = k + 1;
        }
        false
    }

    /// Records that `block` checks each of `ids`.
    fn add_verified(&mut self, block: NodeId, ids: &Vec<NodeId>)
        ensures
            final(self).verified() == old(self).verified().union(
                Set::new(|p: (NodeId, NodeId)| p.0 == block && ids@.contains(p.1)),
            ),
            final(self).occurrences == old(self).occurrences,
    {
        let mut k: usize = 0;
        while k < ids.len()
            invariant
                k <= ids@.len(),
                self.occurrences == old(self).occurrences,
                self.verified() == old(self).verified().union(
                    Set::new(|p: (NodeId, NodeId)| p.0 == block && ids@.take(k as int).contains(p.1)),
                ),
            decreases ids@.len() - k,
        {
            let ghost before = self.verified();
            let ghost prev = self.verified_declarations@;
            let x = (block, ids[k]);
            if !self.is_verified(block, ids[k]) {
                self.verified_declarations.push(x);
            }
            assert forall|q: (NodeId, NodeId)| self.verified().contains(q) <==> before.insert(x).contains(q) by {
                if self.verified_declarations@.contains(q) {
                    let j = choose|j: int| 0 <= j < self.verified_declarations@.len() && self.verified_declarations@[j] == q;
                    if j < prev.len() {
                        assert(prev[j] == q);
                    }
                }
                if prev.contains(q) {
                    let j = choose|j: int| 0 <= j < prev.len() && prev[j] == q;
                    assert(self.verified_declarations@[j] == q);
                }
                if q == x && self.verified_declarations@.len() > prev.len() {
                    assert(self.verified_declarations@[prev.len() as int] == q);
                }
            }
            assert(self.verified() =~= before.insert((block, ids@[k as int])));
            assert forall|p: (NodeId, NodeId)| #![auto] (p.0 == block && ids@.take(k + 1).contains(p.1)) <==> ((p.0
                == block && ids@.take(k as int).contains(p.1)) || p == (block, ids@[k as int])) by {
                if ids@.take(k + 1).contains(p.1) {
                    let j = choose|j: int| 0 <= j < k + 1 && #[trigger] ids@.take(k + 1)[j] == p.1;
                    if j < k {
                        assert(ids@.take(k as int)[j] == p.1);
                    }
                }
                if ids@.take(k as int).contains(p.1) {
                    let j = choose|j: int| 0 <= j < k && #[trigger] ids@.take(k as int)[j] == p.1;
                    assert(ids@.take(k + 1)[j] == p.1);
                }
                if p == (block, ids@[k as int]) {
                    assert(ids@.take(k + 1)[k as int] == p.1);
                }
            }
            assert(self.verified() =~= old(self).verified().union(
                Set::new(|p: (NodeId, NodeId)| p.0 == block && ids@.take(k + 1).contains(p.1)),
            ));
            k = k + 1;
        }
        assert(ids@.take(ids@.len() as int) =~= ids@);
    }

    /// Starts the count of a function, unless it was walked before.
    pub fn visit_function_definition(&mut self, f: &FunctionDefinition)
        requires
            old(self).wf(),
        ensures
            final(self).wf(),
            final(self).verified() == old(self).verified(),
            old(self).count_of(f.info.id) is None ==> final(self).count_of(f.info.id) == Some(0u64),
            forall|id: NodeId| id != f.info.id || old(self).count_of(id) is Some ==> final(self).count_of(id)
                == old(self).count_of(id),
    {
        match self.find(f.info.id) {
            Some(k) => {},
            None => {
                let ghost before = *self;
                self.occurrences.push((f.info.id, 0));
                proof {
                    let n = before.occurrences@.len() as int;
                    assert(self.occurrences@[n] == (f.info.id, 0u64));
                    self.lemma_count_at(n);
                    assert forall|id: NodeId| id != f.info.id implies self.count_of(id) == before.count_of(id) by {
                        if exists|k: int| 0 <= k < before.occurrences@.len() && (#[trigger] before.occurrences@[k]).0 == id {
                            let k = choose|k: int| 0 <= k < before.occurrences@.len() && (#[trigger] before.occurrences@[k]).0 == id;
                            before.lemma_count_at(k);
                            assert(self.occurrences@[k] == before.occurrences@[k]);
                            self.lemma_count_at(k);
                        } else {
                            assert forall|k: int| 0 <= k < self.occurrences@.len() implies (#[trigger] self.occurrences@[k]).0 != id by {
                                if k < n {
                                    assert(self.occurrences@[k] == before.occurrences@[k]);
                                }
                            }
                        }
                    }
                }
            },
        }
    }

    /// Prints the count of unchecked transfers of the function being left,
    /// where it made any.
    pub fn leave_function_definition(&mut self, ctx: &DefCtx, f: &FunctionDefinition, out: &mut Output) -> (r: Result<
        (),
        AnalysisError,
    >)
        requires
            old(out).wf(),
            old(self).wf(),
        ensures
            final(out).wf(),
            old(out).extends(*final(out)),
            *final(self) == *old(self),
            final(out).report == old(out).report,
            printed_at_if(
                *old(out),
                *final(out),
                *ctx.unit,
                f.info.src@,
                old(self).count_of(f.info.id) matches Some(c) && c > 0,
                unchecked_text(crate::render::location_text(*ctx.contract, *ctx.node), old(self).count_of(f.info.id)->Some_0),
                r is Ok,
            ),
            r is Ok ==> match old(self).count_of(f.info.id) {
                Some(c) => if c > 0 {
                    final(out).printed@.len() == old(out).printed@.len() + 1 && final(out).printed@.last()@
                        == "\tL"@ + crate::render::decimal_digits(
                        crate::render::spec_source_line(*ctx.unit, f.info.src@)->Ok_0 as nat,
                    ) + ": "@ + unchecked_text(crate::render::location_text(*ctx.contract, *ctx.node), c)
                } else {
                    final(out).printed == old(out).printed
                },
                None => final(out).printed == old(out).printed,
            },
    {
        proof { Output::lemma_extends_refl(*out); }
        let count = match self.find(f.info.id) {
            Some(k) => {
                proof { self.lemma_count_at(k as int); }
                self.occurrences[k].1
            },
            None => {
                assert(self.count_of(f.info.id) is None);
                return Ok(());
            },
        };
        if count == 0 {
            return Ok(());
        }
        let one = count == 1;
        let msg = definition_node_location(ctx.contract, ctx.node).concat(" makes ").concat(
            if one {
                "an ERC-20 transfer"
            } else {
                "ERC-20 transfers"
            },
        ).concat(" without checking the ").concat(
            if one {
                "amount"
            } else {
                "amounts"
            },
        ).concat(", which can revert ").concat(
            if one {
                "if"
            } else {
                "if any are"
            },
        ).concat(" zero");
        assert(msg@ =~= unchecked_text(crate::render::location_text(*ctx.contract, *ctx.node), count));
        out.print_at(ctx.unit, f.info.src.as_str(), msg)
    }

    /// `after` is `before` having visited the `if` statement `st`.
    pub open spec fn visited_if(before: Self, after: Self, st: IfStatement) -> bool {
        &&& after.occurrences == before.occurrences
        &&& match st.true_body {
            BlockOrStatement::Block(b) => after.verified() == before.verified().union(
                Set::new(|p: (NodeId, NodeId)| p.0 == b.info.id && zero_checked(st.condition).contains(p.1)),
            ),
            _ => after.verified() == before.verified(),
        }
    }

    /// Where the condition of an `if` whose body is a block checks
    /// declarations to be non-zero, records them for that block.
    pub fn visit_if_statement(&mut self, st: &IfStatement)
        ensures
            Self::visited_if(*old(self), *final(self), *st),
    {
        match &st.true_body {
            BlockOrStatement::Block(b) => {
                let ids = zero_checked_declarations(&st.condition);
                self.add_verified(b.info.id, &ids);
            },
            _ => {},
        }
    }

    fn increment(&self, blocks: &Vec<NodeId>, args: &Vec<Expression>) -> (r: u64)
        ensures
            r as int == if transfer_increment(self.verified(), blocks@, args@) > u64::MAX {
                u64::MAX as int
            } else {
                transfer_increment(self.verified(), blocks@, args@) as int
            },
    {
        if args.len() == 0 {
            return 0;
        }
        if let Expression::Literal(_) = &args[args.len() - 1] {
            return 0;
        }
        let ids = referenced_declarations(&args[args.len() - 1]);
        let d: NodeId = if ids.len() > 0 {
            ids[ids.len() - 1]
        } else {
            0
        };
        assert(d == amount_declaration(args@));
        let mut k: usize = 0;
        assert(blocks@.take(0) =~= Seq::<NodeId>::empty());
        while k < blocks.len()
            invariant
                k <= blocks@.len(),
                !checked_in(self.verified(), blocks@.take(k as int), d),
                d == amount_declaration(args@),
                args@.len() > 0 && !(args@.last() is Literal),
            decreases blocks@.len() - k,
        {
            assert(blocks@.take(k + 1).drop_last() =~= blocks@.take(k as int));
            assert(blocks@.take(k + 1).last() == blocks@[k as int]);
            if self.is_verified(blocks[k], d) {
                proof { lemma_checked_in_prefix(self.verified(), blocks@, k + 1, d); }
                return 0;
            }
            k = k + 1;
        }
        assert(blocks@.take(blocks@.len() as int) =~= blocks@);
        1
    }

    /// Adds each ERC-20 transfer the call makes to the count of the function
    /// or modifier walked; then, for a `require` call, records the
    /// declarations its first argument checks to be non-zero for the
    /// innermost enclosing block.
    pub fn visit_function_call(&mut self, ctx: &DefCtx, blocks: &Vec<NodeId>, call: &FunctionCall)
        requires
            old(self).wf(),
        ensures
            final(self).wf(),
            match definition_id(*ctx.node) {
                None => *final(self) == *old(self),
                Some(def) => {
                    &&& forall|id: NodeId| id != def ==> final(self).count_of(id) == old(self).count_of(id)
                    &&& match old(self).count_of(def) {
                        Some(c) => final(self).count_of(def) == Some(
                            saturating(
                                c as int,
                                transfer_count(ctx.units@, refs(*call.expression)) * transfer_increment(
                                    old(self).verified(),
                                    blocks@,
                                    call.arguments@,
                                ),
                            ),
                        ),
                        None => final(self).count_of(def) is None,
                    }
                    &&& final(self).verified() == if blocks@.len() > 0 && ident_named(*call.expression, "require"@)
                        && call.arguments@.len() > 0 {
                        old(self).verified().union(
                            Set::new(|p: (NodeId, NodeId)| p.0 == blocks@.last() && zero_checked(call.arguments@[0]).contains(p.1)),
                        )
                    } else {
                        old(self).verified()
                    }
                },
            },
    {
        let def = match function_or_modifier_id(ctx.node) {
            Some(d) => d,
            None => return,
        };
        let ids = referenced_declarations(&call.expression);
        let inc = self.increment(blocks, &call.arguments);
        let slot = self.find(def);
        let ghost v0 = self.verified();
        let ghost total = transfer_count(ctx.units@, refs(*call.expression)) * transfer_increment(v0, blocks@, call.arguments@);
        match slot {
            Some(k) => {
                proof { self.lemma_count_at(k as int); }
                let ghost start = self.occurrences@[k as int].1;
                let mut i: usize = 0;
                assert(ids@.take(0) =~= Seq::<NodeId>::empty());
                assert(transfer_count(ctx.units@, ids@.take(0)) == 0);
                assert(0 * transfer_increment(v0, blocks@, call.arguments@) == 0) by (nonlinear_arith);
                while i < ids.len()
                    invariant
                        i <= ids@.len(),
                        ids@ == refs(*call.expression),
                        k < self.occurrences@.len(),
                        self.occurrences@[k as int].0 == def,
                        self.occurrences@.len() == old(self).occurrences@.len(),
                        forall|j: int| 0 <= j < self.occurrences@.len() ==> (#[trigger] self.occurrences@[j]).0
                            == old(self).occurrences@[j].0,
                        forall|j: int| 0 <= j < self.occurrences@.len() && j != k ==> self.occurrences@[j]
                            == old(self).occurrences@[j],
                        self.verified_declarations == old(self).verified_declarations,
                        v0 == old(self).verified(),
                        inc as int == if transfer_increment(v0, blocks@, call.arguments@) > u64::MAX {
                            u64::MAX as int
                        } else {
                            transfer_increment(v0, blocks@, call.arguments@) as int
                        },
                        self.occurrences@[k as int].1 == saturating(
                            start as int,
                            transfer_count(ctx.units@, ids@.take(i as int)) * transfer_increment(v0, blocks@, call.arguments@),
                        ),
                    decreases ids@.len() - i,
                {
                    assert(ids@.take(i + 1).drop_last() =~= ids@.take(i as int));
                    let ghost prevc = transfer_count(ctx.units@, ids@.take(i as int));
                    let hit = match find_function_and_contract(ctx.units, ids[i]) {
                        Some((c, f)) => {
                            let erc = eq_ascii_lowercase(c.name.as_str(), "erc20") || eq_ascii_lowercase(
                                c.name.as_str(),
                                "ierc20",
                            );
                            erc && (str_eq(f.name.as_str(), "transfer") || str_eq(f.name.as_str(), "transferFrom"))
                        },
                        None => false,
                    };
                    assert(hit == is_erc20_transfer(ctx.units@, ids@[i as int]));
                    let ghost t = transfer_increment(v0, blocks@, call.arguments@);
                    if hit {
                        let c = self.occurrences[k].1;
                        assert(c == saturating(start as int, prevc * t));
                        assert(prevc * t >= 0) by (nonlinear_arith)
                            requires prevc >= 0, t >= 0;
                        let nc = c.saturating_add(inc);
                        proof {
                            let a = prevc * t;
                            assert(inc as int == if t > u64::MAX { u64::MAX as int } else { t as int });
                            if start + a > u64::MAX {
                                assert(c == u64::MAX);
                                assert(nc == u64::MAX);
                            } else {
                                assert(c as int == start + a);
                                if c + inc > u64::MAX {
                                    assert(nc == u64::MAX);
                                } else {
                                    assert(nc as int == c + inc);
                                }
                            }
                        }
                        assert(nc == saturating(start as int, prevc * t + t));
                        self.occurrences.set(k, (def, nc));
                        assert(transfer_count(ctx.units@, ids@.take(i + 1)) == prevc + 1);
                        assert((prevc + 1) * transfer_increment(v0, blocks@, call.arguments@) == prevc
                            * transfer_increment(v0, blocks@, call.arguments@) + transfer_increment(
                            v0,
                            blocks@,
                            call.arguments@,
                        )) by (nonlinear_arith);
                    } else {
                        assert(transfer_count(ctx.units@, ids@.take(i + 1)) == prevc);
                    }
                    i = i + 1;
                }
                assert(ids@.take(ids@.len() as int) =~= ids@);
                proof {
                    self.lemma_count_at(k as int);
                    assert forall|id: NodeId| id != def implies self.count_of(id) == old(self).count_of(id) by {
                        if exists|j: int| 0 <= j < old(self).occurrences@.len() && (#[trigger] old(self).occurrences@[j]).0 == id {
                            let j = choose|j: int| 0 <= j < old(self).occurrences@.len() && (#[trigger] old(self).occurrences@[j]).0 == id;
                            old(self).lemma_count_at(j);
                            self.lemma_count_at(j);
                        } else {
                            assert forall|j: int| 0 <= j < self.occurrences@.len() implies (#[trigger] self.occurrences@[j]).0 != id by {
                                assert(self.occurrences@[j].0 == old(self).occurrences@[j].0);
                            }
                        }
                    }
                }
            },
            None => {
                proof {
                    assert(old(self).count_of(def) is None);
                }
            },
        }
        if blocks.len() > 0 && is_identifier_named(&call.expression, "require") && call.arguments.len() > 0 {
            let zs = zero_checked_declarations(&call.arguments[0]);
            self.add_verified(blocks[blocks.len() - 1], &zs);
        }
    }
}

} // verus!
