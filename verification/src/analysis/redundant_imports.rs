//! Import directives that repeat a path the source unit already imports.
use vstd::prelude::*;
use crate::analysis::{reported_at_if, unit_path, Output, UnitCtx};
use crate::ast::{ImportDirective, NodeId};
use crate::render::AnalysisError;
use crate::text::str_eq;

verus! {

pub struct RedundantImportsVisitor {
    /// Each import seen: the importing source unit, the imported path, and
    /// whether a repetition of it has been reported.
    pub imported_paths: Vec<(NodeId, String, bool)>,
}

pub open spec fn import_key_at(s: Seq<(NodeId, String, bool)>, k: int, unit: NodeId, file: Seq<char>) -> bool {
    0 <= k < s.len() && s[k].0 == unit && s[k].1@ == file
}

impl RedundantImportsVisitor {
    /// Each source unit's import of a path is recorded once.
    pub open spec fn wf(&self) -> bool {
        forall|i: int, j: int|
            0 <= i < j < self.imported_paths@.len() ==> !(#[trigger] self.imported_paths@[i].0
                == #[trigger] self.imported_paths@[j].0 && self.imported_paths@[i].1@
                == self.imported_paths@[j].1@)
    }

    pub fn new() -> (r: Self)
        ensures
            r.wf(),
            r.imported_paths@.len() == 0,
    {
        RedundantImportsVisitor { imported_paths: Vec::new() }
    }

    /// What the visit of import `d` does: a first import of a path by a unit
    /// is recorded; a second is reported once.
    pub open spec fn import_noted(
        before: Self,
        after: Self,
        o: Output,
        o2: Output,
        ctx: UnitCtx,
        d: ImportDirective,
        ok: bool,
    ) -> bool {
        let s = before.imported_paths@;
        let u = ctx.unit.id;
        &&& (forall|k: int| !#[trigger] import_key_at(s, k, u, d.file@)) ==> (after.imported_paths@.len() == s.len() + 1
            && after.imported_paths@.drop_last() == s && after.imported_paths@.last().0 == u && after.imported_paths@.last().1@
            == d.file@ && !after.imported_paths@.last().2 && o2.report == o.report && ok)
        &&& forall|k: int| #[trigger] import_key_at(s, k, u, d.file@) && s[k].2 ==> (after.imported_paths@ == s && o2.report
            == o.report && ok)
        &&& forall|k: int| #[trigger] import_key_at(s, k, u, d.file@) && !s[k].2 ==> reported_at_if(
            o,
            o2,
            *ctx.unit,
            d.info.src@,
            true,
            "Redundant import specified: `"@ + d.file@ + "`"@,
            ok,
        ) && after.imported_paths@ == s.update(k, (s[k].0, s[k].1, true))
        &&& o2.printed == o.printed
        &&& forall|p: Seq<char>| p != unit_path(*ctx.unit) ==> o2.report.entries_of(p) == o.report.entries_of(p)
    }

    /// A redundant import is reported once: once a unit's repeated import of
    /// a path has been reported, a further import of that path by that unit
    /// files nothing.
    pub proof fn lemma_reported_once(
        v: Self,
        w: Self,
        x: Self,
        o: Output,
        o2: Output,
        o3: Output,
        ctx: UnitCtx,
        d: ImportDirective,
        d2: ImportDirective,
        k: int,
        ok: bool,
        ok2: bool,
    )
        requires
            Self::import_noted(v, w, o, o2, ctx, d, ok),
            Self::import_noted(w, x, o2, o3, ctx, d2, ok2),
            d2.file@ == d.file@,
            import_key_at(v.imported_paths@, k, ctx.unit.id, d.file@),
            !v.imported_paths@[k].2,
        ensures
            o3.report == o2.report,
    {
        assert(import_key_at(w.imported_paths@, k, ctx.unit.id, d2.file@));
    }

    /// Records the import, and reports it the first time it repeats an
    /// earlier import of the same path by the same source unit.
    #[verifier::loop_isolation(false)]
    pub fn visit_import_directive(&mut self, ctx: &UnitCtx, d: &ImportDirective, out: &mut Output) -> (r: Result<(), AnalysisError>)
        requires
            old(out).wf(),
            old(self).wf(),
        ensures
            final(out).wf(),
            old(out).extends(*final(out)),
            final(self).wf(),
            Self::import_noted(*old(self), *final(self), *old(out), *final(out), *ctx, *d, r is Ok),
    {
        let u = ctx.unit.id;
        let n = self.imported_paths.len();
        let mut k: usize = 0;
        while k < n
            invariant
                n == self.imported_paths@.len(),
                self.imported_paths@ == old(self).imported_paths@,
                *out == *old(out),
                k <= n,
                forall|j: int| 0 <= j < k ==> !#[trigger] import_key_at(self.imported_paths@, j, u, d.file@),
            decreases n - k,
        {
            if self.imported_paths[k].0 == u && str_eq(self.imported_paths[k].1.as_str(), d.file.as_str()) {
                if self.imported_paths[k].2 {
                    assert(import_key_at(old(self).imported_paths@, k as int, u, d.file@));
                    return Ok(());
                }
                let ghost s0 = self.imported_paths@;
                let (a, b, _) = self.imported_paths.remove(k);
                let msg = String::from_str("Redundant import specified: `").concat(d.file.as_str()).concat("`");
                self.imported_paths.insert(k, (a, b, true));
                proof {
                    assert(self.imported_paths@ =~= s0.update(k as int, (s0[k as int].0, s0[k as int].1, true)));
                    assert(import_key_at(s0, k as int, u, d.file@));
                    assert forall|j: int| #[trigger] import_key_at(s0, j, u, d.file@) implies j == k by {
                        if j < k {
                            assert(!(s0[j].0 == s0[k as int].0 && s0[j].1@ == s0[k as int].1@));
                        } else if j > k {
                            assert(!(s0[k as int].0 == s0[j].0 && s0[k as int].1@ == s0[j].1@));
                        }
                    }
                    assert forall|i: int, j: int| 0 <= i < j < self.imported_paths@.len() implies !(
                    #[trigger] self.imported_paths@[i].0 == #[trigger] self.imported_paths@[j].0
                        && self.imported_paths@[i].1@ == self.imported_paths@[j].1@) by {
                        assert(self.imported_paths@[i].0 == s0[i].0 && self.imported_paths@[i].1 == s0[i].1);
                        assert(self.imported_paths@[j].0 == s0[j].0 && self.imported_paths@[j].1 == s0[j].1);
                    }
                }
                return out.add_at(ctx.unit, d.info.src.as_str(), msg);
            }
            k = k + 1;
        }
        let ghost s0 = self.imported_paths@;
        assert(forall|j: int| !#[trigger] import_key_at(old(self).imported_paths@, j, u, d.file@));
        self.imported_paths.push((u, d.file.clone(), false));
        proof {
            assert forall|i: int, j: int| 0 <= i < j < self.imported_paths@.len() implies !(
            #[trigger] self.imported_paths@[i].0 == #[trigger] self.imported_paths@[j].0
                && self.imported_paths@[i].1@ == self.imported_paths@[j].1@) by {
                if j == n {
                    assert(!import_key_at(s0, i, u, d.file@));
                } else {
                    assert(self.imported_paths@[i] == s0[i] && self.imported_paths@[j] == s0[j]);
                }
            }
        }
        proof {
            let s1 = old(self).imported_paths@;
            assert(self.imported_paths@.len() == s1.len() + 1);
            assert(self.imported_paths@.drop_last() == s1);
            assert(self.imported_paths@.last().0 == u);
            assert(self.imported_paths@.last().1@ == d.file@);
            assert(!self.imported_paths@.last().2);
        }
        Ok(())
    }
}

} // verus!
