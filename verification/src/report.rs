//! The report that analyses fill: for each source file, the findings in the
//! order they were added, each with an optional line number.
use vstd::prelude::*;
use crate::text::str_eq;

verus! {

/// One finding: an optional line number and its text.
#[derive(Debug)]
pub struct Entry {
    pub line: Option<usize>,
    pub text: String,
}

/// The abstract value of an entry.
pub type EntryView = (Option<usize>, Seq<char>);

impl View for Entry {
    type V = EntryView;

    open spec fn view(&self) -> EntryView {
        (self.line, self.text@)
    }
}

impl Entry {
    pub fn copy(&self) -> (r: Entry)
        ensures
            r@ == self@,
    {
        Entry { line: self.line, text: self.text.clone() }
    }
}

/// The line an entry is ordered by: its line number, or 0 where it has none.
pub open spec fn entry_key(e: EntryView) -> int {
    match e.0 {
        Some(l) => l as int,
        None => 0,
    }
}

/// The entries of `s` whose ordering line is `k`, in their order in `s`.
pub open spec fn with_key(s: Seq<EntryView>, k: int) -> Seq<EntryView>
    decreases s.len(),
{
    if s.len() == 0 {
        Seq::empty()
    } else if entry_key(s.last()) == k {
        with_key(s.drop_last(), k).push(s.last())
    } else {
        with_key(s.drop_last(), k)
    }
}

pub open spec fn sorted_by_line(s: Seq<EntryView>) -> bool {
    forall|i: int, j: int| 0 <= i < j < s.len() ==> entry_key(s[i]) <= entry_key(s[j])
}

/// `r` is `s` sorted by line, where entries with the same line keep their order.
pub open spec fn stable_sort_of(r: Seq<EntryView>, s: Seq<EntryView>) -> bool {
    &&& r.len() == s.len()
    &&& sorted_by_line(r)
    &&& forall|k: int| #[trigger] with_key(r, k) == with_key(s, k)
}

pub proof fn lemma_with_key_add(a: Seq<EntryView>, b: Seq<EntryView>, k: int)
    ensures
        with_key(a + b, k) == with_key(a, k) + with_key(b, k),
    decreases b.len(),
{
    if b.len() == 0 {
        assert(a + b =~= a);
        assert(with_key(a, k) + with_key(b, k) =~= with_key(a, k));
    } else {
        assert((a + b).drop_last() =~= a + b.drop_last());
        lemma_with_key_add(a, b.drop_last(), k);
        if entry_key(b.last()) == k {
            assert(with_key(a, k) + with_key(b.drop_last(), k).push(b.last()) =~= (with_key(a, k)
                + with_key(b.drop_last(), k)).push(b.last()));
        }
    }
}

proof fn lemma_with_key_single(e: EntryView, k: int)
    ensures
        with_key(seq![e], k) == (if entry_key(e) == k { seq![e] } else { Seq::<EntryView>::empty() }),
{
    assert(seq![e].drop_last() =~= Seq::<EntryView>::empty());
    assert(with_key(Seq::<EntryView>::empty(), k) == Seq::<EntryView>::empty());
    assert(Seq::<EntryView>::empty().push(e) =~= seq![e]);
    assert(seq![e].last() == e);
}

proof fn lemma_with_key_none(s: Seq<EntryView>, k: int)
    requires
        forall|i: int| 0 <= i < s.len() ==> entry_key(#[trigger] s[i]) != k,
    ensures
        with_key(s, k) == Seq::<EntryView>::empty(),
    decreases s.len(),
{
    if s.len() > 0 {
        assert(forall|i: int| 0 <= i < s.drop_last().len() ==> s.drop_last()[i] == s[i]);
        lemma_with_key_none(s.drop_last(), k);
        assert(entry_key(s[s.len() - 1]) != k);
    }
}

proof fn lemma_with_key_witness(s: Seq<EntryView>, k: int)
    requires
        with_key(s, k).len() > 0,
    ensures
        exists|i: int| 0 <= i < s.len() && entry_key(#[trigger] s[i]) == k,
    decreases s.len(),
{
    if entry_key(s.last()) == k {
        assert(entry_key(s[s.len() - 1]) == k);
    } else {
        lemma_with_key_witness(s.drop_last(), k);
        let i = choose|i: int| 0 <= i < s.drop_last().len() && entry_key(#[trigger] s.drop_last()[i]) == k;
        assert(s[i] == s.drop_last()[i]);
    }
}

/// Two sequences sorted by line that hold the same entries for each line, in
/// the same order, are the same sequence.
pub proof fn lemma_sorted_unique(a: Seq<EntryView>, b: Seq<EntryView>)
    requires
        sorted_by_line(a),
        sorted_by_line(b),
        a.len() == b.len(),
        forall|k: int| #[trigger] with_key(a, k) == with_key(b, k),
    ensures
        a == b,
    decreases a.len(),
{
    if a.len() == 0 {
        assert(a =~= b);
    } else {
        let x = a.last();
        let y = b.last();
        let kx = entry_key(x);
        let ky = entry_key(y);
        if kx != ky {
            if kx < ky {
                assert(with_key(b, ky).len() > 0);
                assert(with_key(a, ky).len() > 0);
                lemma_with_key_witness(a, ky);
                let i = choose|i: int| 0 <= i < a.len() && entry_key(#[trigger] a[i]) == ky;
                assert(entry_key(a[i]) <= entry_key(a[a.len() - 1]));
            } else {
                assert(with_key(a, kx).len() > 0);
                assert(with_key(b, kx).len() > 0);
                lemma_with_key_witness(b, kx);
                let i = choose|i: int| 0 <= i < b.len() && entry_key(#[trigger] b[i]) == kx;
                assert(entry_key(b[i]) <= entry_key(b[b.len() - 1]));
            }
        }
        assert(with_key(a, kx) == with_key(a.drop_last(), kx).push(x));
        assert(with_key(b, kx) == with_key(b.drop_last(), kx).push(y));
        assert(x == with_key(a, kx).last());
        assert(y == with_key(b, kx).last());
        assert forall|k: int| #[trigger] with_key(a.drop_last(), k) == with_key(b.drop_last(), k) by {
            if k == kx {
                assert(with_key(a.drop_last(), k) =~= with_key(a, k).drop_last());
                assert(with_key(b.drop_last(), k) =~= with_key(b, k).drop_last());
            } else {
                assert(with_key(a, k) == with_key(a.drop_last(), k));
                assert(with_key(b, k) == with_key(b.drop_last(), k));
            }
        }
        lemma_sorted_unique(a.drop_last(), b.drop_last());
        assert(a =~= a.drop_last().push(x));
        assert(b =~= b.drop_last().push(y));
    }
}

/// Sorting entries by line, keeping the order of entries on the same line,
/// has one outcome: two such sortings of the same entries agree.
pub proof fn lemma_stable_sort_unique(r1: Seq<EntryView>, r2: Seq<EntryView>, s: Seq<EntryView>)
    requires
        stable_sort_of(r1, s),
        stable_sort_of(r2, s),
    ensures
        r1 == r2,
{
    assert forall|k: int| #[trigger] with_key(r1, k) == with_key(r2, k) by {
        assert(with_key(r1, k) == with_key(s, k));
        assert(with_key(r2, k) == with_key(s, k));
    }
    lemma_sorted_unique(r1, r2);
}

/// Sorting entries that are already sorted by line leaves them as they are;
/// so sorting twice gives what sorting once gives.
pub proof fn lemma_sort_idempotent(r: Seq<EntryView>, s: Seq<EntryView>, t: Seq<EntryView>)
    requires
        stable_sort_of(r, s),
        stable_sort_of(t, r),
    ensures
        t == r,
{
    assert(stable_sort_of(r, r));
    lemma_stable_sort_unique(t, r, r);
}

fn line_key(e: &Entry) -> (r: usize)
    ensures
        r == entry_key(e@),
{
    match e.line {
        Some(l) => l,
        None => 0,
    }
}

/// Inserting an entry after every entry with a smaller or equal line, and
/// before every entry with a greater one, sorts it in stably.
proof fn lemma_insert_sorted(o: Seq<EntryView>, s: Seq<EntryView>, x: EntryView, p: int)
    requires
        stable_sort_of(o, s),
        0 <= p <= o.len(),
        forall|j: int| 0 <= j < p ==> entry_key(#[trigger] o[j]) <= entry_key(x),
        forall|j: int| p <= j < o.len() ==> entry_key(#[trigger] o[j]) > entry_key(x),
    ensures
        stable_sort_of(o.insert(p, x), s.push(x)),
{
    let r = o.insert(p, x);
    let xk = entry_key(x);
    let left = o.subrange(0, p);
    let right = o.subrange(p, o.len() as int);
    assert(r =~= left + seq![x] + right);
    assert(o =~= left + right);
    assert(s.push(x) =~= s + seq![x]);
    assert forall|k: int| #[trigger] with_key(r, k) == with_key(s.push(x), k) by {
        lemma_with_key_add(left + seq![x], right, k);
        lemma_with_key_add(left, seq![x], k);
        lemma_with_key_add(left, right, k);
        lemma_with_key_add(s, seq![x], k);
        lemma_with_key_single(x, k);
        assert(with_key(o, k) == with_key(s, k));
        if k == xk {
            assert forall|j: int| 0 <= j < right.len() implies entry_key(#[trigger] right[j]) != k by {
                assert(right[j] == o[p + j]);
            }
            lemma_with_key_none(right, k);
            assert(with_key(left, k) + seq![x] + Seq::<EntryView>::empty() =~= with_key(left, k)
                + Seq::<EntryView>::empty() + seq![x]);
        } else {
            assert(with_key(left, k) + Seq::<EntryView>::empty() =~= with_key(left, k));
            assert(with_key(s, k) + Seq::<EntryView>::empty() =~= with_key(s, k));
        }
    }
    assert forall|a: int, b: int| 0 <= a < b < r.len() implies entry_key(r[a]) <= entry_key(r[b]) by {
        if a < p && b < p {
            assert(r[a] == o[a] && r[b] == o[b]);
        } else if a < p && b == p {
            assert(r[a] == o[a]);
        } else if a < p {
            assert(r[a] == o[a] && r[b] == o[b - 1]);
        } else if a == p {
            assert(r[b] == o[b - 1]);
        } else {
            assert(r[a] == o[a - 1] && r[b] == o[b - 1]);
        }
    }
}

/// Sorts `entries` by line, keeping the order of entries on the same line.
pub fn sort_by_line(entries: &Vec<Entry>) -> (r: Vec<Entry>)
    ensures
        stable_sort_of(r@.map_values(|e: Entry| e@), entries@.map_values(|e: Entry| e@)),
{
    let ghost s = entries@.map_values(|e: Entry| e@);
    let mut out: Vec<Entry> = Vec::new();
    let n = entries.len();
    let mut i: usize = 0;
    proof {
        assert(s.take(0) =~= Seq::<EntryView>::empty());
        assert(out@.map_values(|e: Entry| e@) =~= Seq::<EntryView>::empty());
        assert forall|k: int| #[trigger] with_key(Seq::<EntryView>::empty(), k) == with_key(s.take(0), k) by {}
    }
    while i < n
        invariant
            n == entries@.len(),
            s == entries@.map_values(|e: Entry| e@),
            i <= n,
            stable_sort_of(out@.map_values(|e: Entry| e@), s.take(i as int)),
        decreases n - i,
    {
        let x = entries[i].copy();
        let xk = line_key(&x);
        let ghost o = out@.map_values(|e: Entry| e@);
        let mut p: usize = out.len();
        while p > 0 && line_key(&out[p - 1]) > xk
            invariant
                p <= out@.len(),
                o == out@.map_values(|e: Entry| e@),
                sorted_by_line(o),
                forall|j: int| p <= j < o.len() ==> entry_key(#[trigger] o[j]) > xk,
            decreases p,
        {
            p = p - 1;
        }
        proof {
            assert forall|j: int| 0 <= j < p implies entry_key(#[trigger] o[j]) <= xk by {
                assert(entry_key(o[p - 1]) <= xk);
            }
            assert(s.take(i + 1) =~= s.take(i as int).push(x@));
            lemma_insert_sorted(o, s.take(i as int), x@, p as int);
        }
        let ghost xv = x@;
        out.insert(p, x);
        assert(out@.map_values(|e: Entry| e@) =~= o.insert(p as int, xv));
        i = i + 1;
    }
    assert(s.take(n as int) =~= s);
    out
}

/// The findings of an analysis, grouped by source file.
#[derive(Debug)]
pub struct Report {
    files: Vec<(String, Vec<Entry>)>,
}

/// The abstract value of a report: each file's path with its entries, in the
/// order the files were first reported.
pub type ReportView = Seq<(Seq<char>, Seq<EntryView>)>;

impl View for Report {
    type V = ReportView;

    closed spec fn view(&self) -> ReportView {
        self.files@.map_values(|f: (String, Vec<Entry>)| (f.0@, f.1@.map_values(|e: Entry| e@)))
    }
}

impl Report {
    /// No file is listed twice.
    pub open spec fn wf(&self) -> bool {
        forall|i: int, j: int|
            0 <= i < j < self@.len() ==> (#[trigger] self@[i]).0 != (#[trigger] self@[j]).0
    }

    pub open spec fn has_path(&self, p: Seq<char>) -> bool {
        exists|i: int| 0 <= i < self@.len() && (#[trigger] self@[i]).0 == p
    }

    /// The entries reported for the file `p`, empty where there are none.
    pub open spec fn entries_of(&self, p: Seq<char>) -> Seq<EntryView> {
        if self.has_path(p) {
            self@[choose|i: int| 0 <= i < self@.len() && (#[trigger] self@[i]).0 == p].1
        } else {
            Seq::empty()
        }
    }

    pub fn new() -> (r: Report)
        ensures
            r.wf(),
            r@ == Seq::<(Seq<char>, Seq<EntryView>)>::empty(),
    {
        Report { files: Vec::new() }
    }

    proof fn lemma_entries_at(&self, i: int)
        requires
            self.wf(),
            0 <= i < self@.len(),
        ensures
            self.has_path(self@[i].0),
            self.entries_of(self@[i].0) == self@[i].1,
    {
        assert(self@[i].0 == self@[i].0);
        let c = choose|k: int| 0 <= k < self@.len() && (#[trigger] self@[k]).0 == self@[i].0;
        assert(c == i);
    }

    /// Two well-formed reports that agree on every file but the one at `i`,
    /// and list the same path there, agree on every other path.
    proof fn lemma_agree_elsewhere(a: &Report, b: &Report, i: int, p: Seq<char>)
        requires
            a.wf(),
            b.wf(),
            0 <= i < a@.len(),
            a@.len() == b@.len(),
            b@[i].0 == a@[i].0,
            p != a@[i].0,
            forall|j: int| 0 <= j < a@.len() && j != i ==> b@[j] == a@[j],
        ensures
            b.entries_of(p) == a.entries_of(p),
            b.has_path(p) == a.has_path(p),
    {
        if a.has_path(p) {
            let k = choose|k: int| 0 <= k < a@.len() && (#[trigger] a@[k]).0 == p;
            a.lemma_entries_at(k);
            b.lemma_entries_at(k);
        } else if b.has_path(p) {
            let k = choose|k: int| 0 <= k < b@.len() && (#[trigger] b@[k]).0 == p;
            assert(a@[k].0 == p);
        }
    }

    /// A report extended by one file agrees with the report it extends on every other path.
    proof fn lemma_agree_pushed(a: &Report, b: &Report, p: Seq<char>)
        requires
            a.wf(),
            b.wf(),
            b@.len() == a@.len() + 1,
            b@[a@.len() as int].0 != p,
            forall|j: int| 0 <= j < a@.len() ==> b@[j] == a@[j],
        ensures
            b.entries_of(p) == a.entries_of(p),
            b.has_path(p) == a.has_path(p),
    {
        if a.has_path(p) {
            let k = choose|k: int| 0 <= k < a@.len() && (#[trigger] a@[k]).0 == p;
            a.lemma_entries_at(k);
            b.lemma_entries_at(k);
        } else if b.has_path(p) {
            let k = choose|k: int| 0 <= k < b@.len() && (#[trigger] b@[k]).0 == p;
            assert(k < a@.len());
            assert(a@[k].0 == p);
        }
    }

    /// Adds an entry at the end of the entries of `file`.
    pub fn add_entry(&mut self, file: String, line: Option<usize>, text: String)
        requires
            old(self).wf(),
        ensures
            final(self).wf(),
            final(self).entries_of(file@) == old(self).entries_of(file@).push((line, text@)),
            final(self).has_path(file@),
            forall|p: Seq<char>|
                p != file@ ==> final(self).entries_of(p) == old(self).entries_of(p)
                    && final(self).has_path(p) == old(self).has_path(p),
    {
        let ghost old_v = self@;
        let n = self.files.len();
        let mut i: usize = 0;
        while i < n
            invariant
                n == self.files@.len(),
                n == old_v.len(),
                self@ == old_v,
                old(self)@ == old_v,
                old(self).wf(),
                i <= n,
                forall|j: int| 0 <= j < i ==> old_v[j].0 != file@,
            decreases n - i,
        {
            if str_eq(self.files[i].0.as_str(), file.as_str()) {
                let ghost fs = self.files@;
                let (path, mut list) = self.files.remove(i);
                let ghost before = list@.map_values(|e: Entry| e@);
                list.push(Entry { line, text });
                let ghost after = list@.map_values(|e: Entry| e@);
                assert(after =~= before.push((line, text@)));
                self.files.insert(i, (path, list));
                proof {
                    assert(self.files@ =~= fs.update(i as int, self.files@[i as int]));
                    assert(self@ =~= old_v.update(i as int, (file@, before.push((line, text@)))));
                    assert forall|a: int, b: int| 0 <= a < b < self@.len() implies (
                    #[trigger] self@[a]).0 != (#[trigger] self@[b]).0 by {
                        assert(self@[a].0 == old_v[a].0);
                        assert(self@[b].0 == old_v[b].0);
                    }
                    old(self).lemma_entries_at(i as int);
                    self.lemma_entries_at(i as int);
                    assert forall|p: Seq<char>| p != file@ implies self.entries_of(p) == old(
                        self,
                    ).entries_of(p) && self.has_path(p) == old(self).has_path(p) by {
                        Report::lemma_agree_elsewhere(old(self), self, i as int, p);
                    }
                }
                return;
            }
            i = i + 1;
        }
        let ghost fv = file@;
        let ghost fs = self.files@;
        let mut list: Vec<Entry> = Vec::new();
        list.push(Entry { line, text });
        let ghost e = list@.map_values(|e: Entry| e@);
        assert(e =~= seq![(line, text@)]);
        self.files.push((file, list));
        proof {
            assert(self.files@ =~= fs.push(self.files@[n as int]));
            assert(self@ =~= old_v.push((fv, e)));
            assert forall|a: int, b: int| 0 <= a < b < self@.len() implies (#[trigger] self@[a]).0
                != (#[trigger] self@[b]).0 by {
                assert(self@[a].0 == old_v[a].0);
            }
            self.lemma_entries_at(n as int);
            assert(!old(self).has_path(fv)) by {
                if old(self).has_path(fv) {
                    let k = choose|k: int| 0 <= k < old_v.len() && (#[trigger] old_v[k]).0 == fv;
                }
            }
            assert(Seq::<EntryView>::empty().push((line, text@)) =~= e);
            assert forall|p: Seq<char>| p != fv implies self.entries_of(p) == old(self).entries_of(p)
                && self.has_path(p) == old(self).has_path(p) by {
                Report::lemma_agree_pushed(old(self), self, p);
            }
        }
    }

    /// `after` holds the files of `before`, in the same order, each with its
    /// entries sorted by line, entries on the same line keeping their order.
    pub open spec fn sorted_from(after: Report, before: Report) -> bool {
        &&& after@.len() == before@.len()
        &&& forall|i: int|
            0 <= i < before@.len() ==> (#[trigger] after@[i]).0 == before@[i].0 && stable_sort_of(after@[i].1, before@[i].1)
    }

    /// Sorting a report whose entries are sorted already changes nothing: a
    /// second `sort_entries` gives what the first gave.
    pub proof fn lemma_sort_entries_idempotent(a: Report, b: Report, c: Report)
        requires
            Self::sorted_from(b, a),
            Self::sorted_from(c, b),
        ensures
            c@ == b@,
    {
        assert forall|i: int| 0 <= i < b@.len() implies #[trigger] c@[i] == b@[i] by {
            lemma_sort_idempotent(b@[i].1, a@[i].1, c@[i].1);
        }
        assert(c@ =~= b@);
    }

    /// Sorts each file's entries by line, entries on the same line (or without
    /// one, which counts as line 0) keeping their order.
    pub fn sort_entries(&mut self)
        requires
            old(self).wf(),
        ensures
            final(self).wf(),
            Self::sorted_from(*final(self), *old(self)),
    {
        let ghost old_v = self@;
        let mut files: Vec<(String, Vec<Entry>)> = Vec::new();
        let n = self.files.len();
        let mut i: usize = 0;
        while i < n
            invariant
                n == self.files@.len(),
                self@ == old_v,
                i <= n,
                files@.len() == i,
                forall|j: int|
                    0 <= j < i ==> (#[trigger] files@[j]).0@ == old_v[j].0 && stable_sort_of(
                        files@[j].1@.map_values(|e: Entry| e@),
                        old_v[j].1,
                    ),
            decreases n - i,
        {
            let sorted = sort_by_line(&self.files[i].1);
            files.push((self.files[i].0.clone(), sorted));
            i = i + 1;
        }
        self.files = files;
        assert forall|a: int, b: int| 0 <= a < b < self@.len() implies (#[trigger] self@[a]).0 != (
        #[trigger] self@[b]).0 by {
            assert(self@[a].0 == old_v[a].0);
            assert(self@[b].0 == old_v[b].0);
        }
    }

    /// The number of files with entries.
    pub fn file_count(&self) -> (r: usize)
        ensures
            r == self@.len(),
    {
        self.files.len()
    }

    /// The path of the `i`-th file.
    pub fn file_path(&self, i: usize) -> (r: &String)
        requires
            i < self@.len(),
        ensures
            r@ == self@[i as int].0,
    {
        &self.files[i].0
    }

    /// The entries of the `i`-th file.
    pub fn file_entries(&self, i: usize) -> (r: &Vec<Entry>)
        requires
            i < self@.len(),
        ensures
            r@.map_values(|e: Entry| e@) == self@[i as int].1,
    {
        &self.files[i].1
    }
}

} // verus!
