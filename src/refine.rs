//! Refinement: re-reads every address of an earlier result and keeps those that
//! still hold the value. The caller performs each read that `next_read` asks for.
use vstd::prelude::*;
use crate::data_types::{ByteOrder, Endianness};
use crate::fresh::{results_view, ReadRequest};
use crate::value::WrappedValue;

verus! {

/// Whether `a` is `b` with some elements left out, order kept.
pub open spec fn is_subsequence(a: Seq<u64>, b: Seq<u64>) -> bool
    decreases b.len(),
{
    if a.len() == 0 {
        true
    } else if b.len() == 0 {
        false
    } else if a.last() == b.last() {
        is_subsequence(a.drop_last(), b.drop_last())
    } else {
        is_subsequence(a, b.drop_last())
    }
}

/// Whether every entry of `a` narrows an entry of `b` with the same pid, in the
/// order of `b`: `a` is a subset of `b`, order kept.
pub open spec fn sub_entries(a: Seq<(i32, Seq<u64>)>, b: Seq<(i32, Seq<u64>)>) -> bool
    decreases b.len(),
{
    if a.len() == 0 {
        true
    } else if b.len() == 0 {
        false
    } else if a.last().0 == b.last().0 && is_subsequence(a.last().1, b.last().1) {
        sub_entries(a.drop_last(), b.drop_last())
    } else {
        sub_entries(a, b.drop_last())
    }
}

pub proof fn lemma_subsequence_drop_last(a: Seq<u64>, b: Seq<u64>)
    requires
        a.len() > 0,
        is_subsequence(a, b),
    ensures
        is_subsequence(a.drop_last(), b),
    decreases b.len(), 0nat,
{
    if b.len() > 0 {
        if a.last() == b.last() {
            if a.len() > 1 {
                lemma_subsequence_drop_last(a.drop_last(), b.drop_last());
            }
            lemma_subsequence_extend(a.drop_last(), b.drop_last(), b.last());
            assert(b.drop_last().push(b.last()) =~= b);
        } else {
            lemma_subsequence_drop_last(a, b.drop_last());
            lemma_subsequence_extend(a.drop_last(), b.drop_last(), b.last());
            assert(b.drop_last().push(b.last()) =~= b);
        }
    }
}

/// A subsequence stays one when the longer sequence grows.
pub proof fn lemma_subsequence_extend(a: Seq<u64>, b: Seq<u64>, x: u64)
    requires
        is_subsequence(a, b),
    ensures
        is_subsequence(a, b.push(x)),
    decreases b.len(), 1nat,
{
    assert(b.push(x).drop_last() =~= b);
    if a.len() > 0 && a.last() == x {
        lemma_subsequence_drop_last(a, b);
    }
}

pub proof fn lemma_sub_entries_drop_last(a: Seq<(i32, Seq<u64>)>, b: Seq<(i32, Seq<u64>)>)
    requires
        a.len() > 0,
        sub_entries(a, b),
    ensures
        sub_entries(a.drop_last(), b),
    decreases b.len(), 0nat,
{
    if b.len() > 0 {
        assert(b.drop_last().push(b.last()) =~= b);
        if a.last().0 == b.last().0 && is_subsequence(a.last().1, b.last().1) {
            if a.len() > 1 {
                lemma_sub_entries_drop_last(a.drop_last(), b.drop_last());
            }
            lemma_sub_entries_extend(a.drop_last(), b.drop_last(), b.last());
        } else {
            lemma_sub_entries_drop_last(a, b.drop_last());
            lemma_sub_entries_extend(a.drop_last(), b.drop_last(), b.last());
        }
    }
}

/// Sub-entries stay so when the longer list grows.
pub proof fn lemma_sub_entries_extend(a: Seq<(i32, Seq<u64>)>, b: Seq<(i32, Seq<u64>)>, e: (i32, Seq<u64>))
    requires
        sub_entries(a, b),
    ensures
        sub_entries(a, b.push(e)),
    decreases b.len(), 1nat,
{
    assert(b.push(e).drop_last() =~= b);
    if a.len() > 0 && a.last().0 == e.0 && is_subsequence(a.last().1, e.1) {
        lemma_sub_entries_drop_last(a, b);
    }
}

/// The progress of a refinement.
pub struct RefineView {
    /// Index of the entry being re-read.
    pub entry: nat,
    /// Index of the next address of that entry.
    pub index: nat,
    /// Addresses of that entry that still hold the value.
    pub kept: Seq<u64>,
    /// One entry per finished entry that kept addresses.
    pub results: Seq<(i32, Seq<u64>)>,
}

/// Closes every entry whose addresses have all been re-read and moves to the next
/// address to read.
pub open spec fn settle_entries(prev: Seq<(i32, Seq<u64>)>, v: RefineView) -> RefineView
    decreases prev.len() - v.entry,
{
    if v.entry < prev.len() && v.index >= prev[v.entry as int].1.len() {
        let results = if v.kept.len() > 0 { v.results.push((prev[v.entry as int].0, v.kept)) } else { v.results };
        settle_entries(prev, RefineView { entry: v.entry + 1, index: 0, kept: Seq::empty(), results })
    } else {
        v
    }
}

/// The state before any address is re-read.
pub open spec fn refine_start(prev: Seq<(i32, Seq<u64>)>) -> RefineView {
    settle_entries(prev, RefineView { entry: 0, index: 0, kept: Seq::empty(), results: Seq::empty() })
}

/// A refinement of earlier results against one value.
pub struct Refinement {
    pub previous: Vec<(i32, Vec<u64>)>,
    pub needle: WrappedValue,
    pub order: ByteOrder,
    pub entry: usize,
    pub index: usize,
    pub kept: Vec<u64>,
    pub results: Vec<(i32, Vec<u64>)>,
}

impl Refinement {
    pub open spec fn view(&self) -> RefineView {
        RefineView {
            entry: self.entry as nat,
            index: self.index as nat,
            kept: self.kept@,
            results: results_view(self.results@),
        }
    }

    pub open spec fn prev(&self) -> Seq<(i32, Seq<u64>)> {
        results_view(self.previous@)
    }

    pub open spec fn wf(&self) -> bool {
        &&& self.entry <= self.previous.len()
        &&& self.entry < self.previous.len() ==> self.index < self.previous@[self.entry as int].1.len()
        &&& sub_entries(self.view().results, self.prev().take(self.entry as int))
        &&& self.entry < self.previous.len() ==> is_subsequence(
            self.kept@,
            self.prev()[self.entry as int].1.take(self.index as int),
        )
    }

    pub open spec fn done(&self) -> bool {
        self.entry >= self.previous.len()
    }

    /// The read the refinement waits for.
    pub open spec fn pending(&self) -> ReadRequest {
        ReadRequest {
            pid: self.previous@[self.entry as int].0,
            address: self.previous@[self.entry as int].1@[self.index as int],
            len: self.needle.kind().width() as usize,
        }
    }

    /// Starts re-reading the addresses of `previous` for `needle`.
    pub fn new(previous: Vec<(i32, Vec<u64>)>, needle: WrappedValue, endianness: Endianness) -> (r: Refinement)
        ensures
            r.wf(),
            r.previous@ == previous@,
            r.needle == needle,
            endianness.fixed() is Some ==> r.order == endianness.fixed()->0,
            r.view() == refine_start(results_view(previous@)),
    {
        let mut refinement = Refinement {
            previous,
            needle,
            order: endianness.resolve(),
            entry: 0,
            index: 0,
            kept: Vec::new(),
            results: Vec::new(),
        };
        assert(results_view(refinement.results@) =~= Seq::empty());
        assert(refinement.kept@ =~= refinement.prev()[0].1.take(0)) by {
            if refinement.previous.len() > 0 {
            }
        };
        refinement.settle();
        refinement
    }

    fn settle(&mut self)
        requires
            old(self).entry <= old(self).previous.len(),
            sub_entries(old(self).view().results, old(self).prev().take(old(self).entry as int)),
            old(self).entry < old(self).previous.len() ==> is_subsequence(
                old(self).kept@,
                old(self).prev()[old(self).entry as int].1.take(old(self).index as int),
            ),
            old(self).entry < old(self).previous.len() ==> old(self).index <= old(self).previous@[old(self).entry as int].1.len(),
        ensures
            final(self).wf(),
            final(self).previous == old(self).previous,
            final(self).needle == old(self).needle,
            final(self).order == old(self).order,
            final(self).view() == settle_entries(old(self).prev(), old(self).view()),
    {
        let n = self.previous.len();
        while self.entry < n && self.index >= self.previous[self.entry].1.len()
            invariant
                n == self.previous.len(),
                self.previous == old(self).previous,
                self.needle == old(self).needle,
                self.order == old(self).order,
                self.entry <= n,
                sub_entries(self.view().results, self.prev().take(self.entry as int)),
                self.entry < n ==> is_subsequence(self.kept@, self.prev()[self.entry as int].1.take(self.index as int)),
                self.entry < n ==> self.index <= self.previous@[self.entry as int].1.len(),
                settle_entries(self.prev(), self.view()) == settle_entries(old(self).prev(), old(self).view()),
            decreases n - self.entry,
        {
            let pid = self.previous[self.entry].0;
            let ghost before = self.view();
            let ghost e = self.prev()[self.entry as int];
            assert(e.1.take(self.index as int) =~= e.1);
            assert(self.prev().take(self.entry + 1) =~= self.prev().take(self.entry as int).push(e));
            if self.kept.len() > 0 {
                let mut taken: Vec<u64> = Vec::new();
                core::mem::swap(&mut taken, &mut self.kept);
                self.results.push((pid, taken));
                assert(results_view(self.results@) =~= before.results.push((pid, before.kept)));
                assert(self.view().results.drop_last() =~= before.results);
                assert(self.prev().take(self.entry + 1).drop_last() =~= self.prev().take(self.entry as int));
                assert(self.view().results.last() == (pid, before.kept));
                assert(is_subsequence(before.kept, e.1));
                assert(sub_entries(self.view().results, self.prev().take(self.entry + 1)));
            } else {
                proof {
                    lemma_sub_entries_extend(before.results, self.prev().take(self.entry as int), e);
                }
            }
            self.kept = Vec::new();
            self.entry = self.entry + 1;
            self.index = 0;
            assert(self.view().kept =~= Seq::<u64>::empty());
        }
    }

    /// The read the refinement waits for, or `None` once every address has been re-read.
    pub fn next_read(&self) -> (r: Option<ReadRequest>)
        requires
            self.wf(),
        ensures
            self.done() ==> r is None,
            !self.done() ==> r == Some(self.pending()),
    {
        if self.entry >= self.previous.len() {
            return None;
        }
        let pid = self.previous[self.entry].0;
        let address = self.previous[self.entry].1[self.index];
        Some(ReadRequest { pid, address, len: self.needle.data_type().size() })
    }

    /// Hands back the bytes that the pending read got; the address is kept when they
    /// hold the value, so a short read drops it.
    pub fn value_read(&mut self, data: &[u8])
        requires
            old(self).wf(),
            !old(self).done(),
        ensures
            final(self).wf(),
            final(self).previous == old(self).previous,
            final(self).needle == old(self).needle,
            final(self).order == old(self).order,
            final(self).view() == settle_entries(
                old(self).prev(),
                RefineView {
                    index: (old(self).index + 1) as nat,
                    kept: if old(self).needle.stored_in(data@, old(self).order) {
                        old(self).kept@.push(old(self).pending().address)
                    } else {
                        old(self).kept@
                    },
                    ..old(self).view()
                },
            ),
    {
        let address = self.previous[self.entry].1[self.index];
        let ghost e = self.prev()[self.entry as int].1;
        assert(e.take(self.index + 1) =~= e.take(self.index as int).push(address));
        let ghost old_kept = self.kept@;
        if self.needle.compare_in(data, self.order) {
            self.kept.push(address);
            assert(self.kept@.drop_last() =~= old_kept);
            assert(e.take(self.index + 1).drop_last() =~= e.take(self.index as int));
        } else {
            proof {
                lemma_subsequence_extend(self.kept@, e.take(self.index as int), address);
            }
        }
        self.index = self.index + 1;
        self.settle();
    }

    /// Reports that the pending read failed; the address is dropped.
    pub fn value_failed(&mut self)
        requires
            old(self).wf(),
            !old(self).done(),
        ensures
            final(self).wf(),
            final(self).previous == old(self).previous,
            final(self).needle == old(self).needle,
            final(self).order == old(self).order,
            final(self).view() == settle_entries(old(self).prev(), RefineView { index: (old(self).index + 1) as nat, ..old(self).view() }),
    {
        let address = self.previous[self.entry].1[self.index];
        let ghost e = self.prev()[self.entry as int].1;
        assert(e.take(self.index + 1) =~= e.take(self.index as int).push(address));
        proof {
            lemma_subsequence_extend(self.kept@, e.take(self.index as int), address);
        }
        self.index = self.index + 1;
        self.settle();
    }

    /// The addresses that still hold the value, per pid. They narrow the earlier
    /// results: same pids in the same order, each list a subsequence of its earlier one.
    pub fn finish(self) -> (r: Vec<(i32, Vec<u64>)>)
        requires
            self.wf(),
            self.done(),
        ensures
            results_view(r@) == self.view().results,
            sub_entries(results_view(r@), results_view(self.previous@)),
    {
        assert(self.prev().take(self.entry as int) =~= self.prev());
        self.results
    }
}

} // verus!
