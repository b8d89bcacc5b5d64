//! The fresh scan: the decisions of a scan over remote regions, one chunk read at
//! a time. The caller performs each read that `next_read` asks for and hands the
//! bytes it got (or the failure) back.
use vstd::prelude::*;
use crate::data_types::{ByteOrder, Endianness};
use crate::lanes::{lemma_matches_from_scan, lemma_scan_from, matches_from, Query};
use crate::scan::Backend;
use crate::value::WrappedValue;

verus! {

/// A half-open range `[start, end)` of the address space of process `pid`.
#[derive(Debug, PartialEq, Eq, Structural, Clone, Copy)]
pub struct SearchRegion {
    pub pid: i32,
    pub start: u64,
    pub end: u64,
}

/// A remote read to perform: `len` bytes at `address` in process `pid`.
#[derive(Debug, PartialEq, Eq, Structural, Clone, Copy)]
pub struct ReadRequest {
    pub pid: i32,
    pub address: u64,
    pub len: usize,
}

pub open spec fn min(a: nat, b: nat) -> nat {
    if a <= b { a } else { b }
}

/// The addresses `base + o` of the offsets `o`.
pub open spec fn addresses(base: nat, offsets: Seq<nat>) -> Seq<u64> {
    Seq::new(offsets.len(), |i: int| (base + offsets[i]) as u64)
}

/// The addresses of the matches of `needle` in bytes read from `base`.
pub open spec fn chunk_hits(needle: WrappedValue, order: ByteOrder, base: nat, data: Seq<u8>) -> Seq<u64> {
    addresses(base, matches_from(needle.kind(), order, Query::Equal(needle.raw() as u64), data, 0))
}

/// The progress of a fresh scan.
pub struct FreshView {
    /// Index of the region being scanned.
    pub region: nat,
    /// Address of the next chunk of that region.
    pub cursor: nat,
    /// Matches found so far in that region.
    pub pointers: Seq<u64>,
    /// One entry per finished region that had matches.
    pub results: Seq<(i32, Seq<u64>)>,
    /// Number of chunk reads that failed.
    pub failed: nat,
}

/// Closes every region whose chunks have all been read, starting at the current
/// one, and moves to the first region that still has bytes to read.
pub open spec fn settle(regions: Seq<SearchRegion>, v: FreshView) -> FreshView
    decreases regions.len() - v.region,
{
    if v.region < regions.len() && v.cursor >= regions[v.region as int].end {
        let r = regions[v.region as int];
        let results = if v.pointers.len() > 0 { v.results.push((r.pid, v.pointers)) } else { v.results };
        let next = v.region + 1;
        let cursor = if next < regions.len() { regions[next as int].start as nat } else { 0 };
        settle(regions, FreshView { region: next, cursor, pointers: Seq::empty(), results, failed: v.failed })
    } else {
        v
    }
}

/// The state before any chunk is read.
pub open spec fn fresh_start(regions: Seq<SearchRegion>) -> FreshView {
    settle(
        regions,
        FreshView {
            region: 0,
            cursor: if regions.len() > 0 { regions[0].start as nat } else { 0 },
            pointers: Seq::empty(),
            results: Seq::empty(),
            failed: 0,
        },
    )
}

pub open spec fn results_view(v: Seq<(i32, Vec<u64>)>) -> Seq<(i32, Seq<u64>)> {
    Seq::new(v.len(), |i: int| (v[i].0, v[i].1@))
}

/// A scan over regions for one value; chunks are read in region order and in
/// ascending address order within a region.
pub struct FreshScan {
    pub regions: Vec<SearchRegion>,
    pub needle: WrappedValue,
    pub order: ByteOrder,
    pub backend: Backend,
    pub chunk_size: usize,
    pub region: usize,
    pub cursor: u64,
    pub pointers: Vec<u64>,
    pub results: Vec<(i32, Vec<u64>)>,
    pub failed_reads: usize,
}

impl FreshScan {
    pub open spec fn view(&self) -> FreshView {
        FreshView {
            region: self.region as nat,
            cursor: self.cursor as nat,
            pointers: self.pointers@,
            results: results_view(self.results@),
            failed: self.failed_reads as nat,
        }
    }

    pub open spec fn wf(&self) -> bool {
        &&& self.chunk_size > 0
        &&& self.region <= self.regions.len()
        &&& self.region < self.regions.len() ==> self.cursor < self.regions@[self.region as int].end
    }

    /// Whether every chunk has been read.
    pub open spec fn done(&self) -> bool {
        self.region >= self.regions.len()
    }

    /// The read the scan waits for.
    pub open spec fn pending(&self) -> ReadRequest {
        let r = self.regions@[self.region as int];
        ReadRequest {
            pid: r.pid,
            address: self.cursor,
            len: min(self.chunk_size as nat, (r.end - self.cursor) as nat) as usize,
        }
    }

    /// Starts a scan for `needle` over `regions`, reading `chunk_size` bytes at a time.
    pub fn new(regions: Vec<SearchRegion>, needle: WrappedValue, chunk_size: usize, endianness: Endianness) -> (r: FreshScan)
        requires
            chunk_size > 0,
        ensures
            r.wf(),
            r.regions@ == regions@,
            r.needle == needle,
            r.chunk_size == chunk_size,
            endianness.fixed() is Some ==> r.order == endianness.fixed()->0,
            r.view() == fresh_start(regions@),
    {
        let cursor = if regions.len() > 0 { regions[0].start } else { 0 };
        let mut scan = FreshScan {
            regions,
            needle,
            order: endianness.resolve(),
            backend: Backend::detect(),
            chunk_size,
            region: 0,
            cursor,
            pointers: Vec::new(),
            results: Vec::new(),
            failed_reads: 0,
        };
        assert(results_view(scan.results@) =~= Seq::empty());
        scan.settle_regions();
        scan
    }

    /// Closes finished regions and moves to the next chunk to read.
    fn settle_regions(&mut self)
        requires
            old(self).chunk_size > 0,
            old(self).region <= old(self).regions.len(),
        ensures
            final(self).wf(),
            final(self).regions == old(self).regions,
            final(self).needle == old(self).needle,
            final(self).order == old(self).order,
            final(self).backend == old(self).backend,
            final(self).chunk_size == old(self).chunk_size,
            final(self).view() == settle(old(self).regions@, old(self).view()),
    {
        let n = self.regions.len();
        while self.region < n && self.cursor >= self.regions[self.region].end
            invariant
                n == self.regions.len(),
                self.regions == old(self).regions,
                self.needle == old(self).needle,
                self.order == old(self).order,
                self.backend == old(self).backend,
                self.chunk_size == old(self).chunk_size,
                self.chunk_size > 0,
                self.region <= n,
                self.failed_reads == old(self).failed_reads,
                settle(self.regions@, self.view()) == settle(old(self).regions@, old(self).view()),
            decreases n - self.region,
        {
            let r = self.regions[self.region];
            let ghost before = self.view();
            if self.pointers.len() > 0 {
                let mut taken: Vec<u64> = Vec::new();
                core::mem::swap(&mut taken, &mut self.pointers);
                self.results.push((r.pid, taken));
                assert(results_view(self.results@) =~= before.results.push((r.pid, before.pointers)));
            }
            self.pointers = Vec::new();
            self.region = self.region + 1;
            self.cursor = if self.region < n { self.regions[self.region].start } else { 0 };
            assert(self.view().pointers =~= Seq::<u64>::empty());
        }
    }

    /// The read the scan waits for, or `None` once every chunk has been read.
    pub fn next_read(&self) -> (r: Option<ReadRequest>)
        requires
            self.wf(),
        ensures
            self.done() ==> r is None,
            !self.done() ==> r == Some(self.pending()),
    {
        if self.region >= self.regions.len() {
            return None;
        }
        let r = self.regions[self.region];
        let rest = r.end - self.cursor;
        let len: usize = if (self.chunk_size as u64) <= rest { self.chunk_size } else { rest as usize };
        Some(ReadRequest { pid: r.pid, address: self.cursor, len })
    }

    /// Hands back the bytes that the pending read got: the whole request, or a
    /// prefix of it after a short read. Only those bytes are scanned.
    pub fn chunk_read(&mut self, data: &[u8])
        requires
            old(self).wf(),
            !old(self).done(),
            data@.len() <= old(self).pending().len,
        ensures
            final(self).wf(),
            final(self).regions == old(self).regions,
            final(self).needle == old(self).needle,
            final(self).order == old(self).order,
            final(self).chunk_size == old(self).chunk_size,
            final(self).view() == settle(
                old(self).regions@,
                FreshView {
                    cursor: (old(self).cursor + old(self).pending().len) as nat,
                    pointers: old(self).pointers@ + chunk_hits(old(self).needle, old(self).order, old(self).cursor as nat, data@),
                    ..old(self).view()
                },
            ),
    {
        let req = match self.next_read() {
            Some(req) => req,
            None => return,
        };
        let base = self.cursor;
        collect_hits(self.backend, self.needle, self.order, base, data, &mut self.pointers);
        self.cursor = base + req.len as u64;
        self.settle_regions();
    }

    /// Reports that the pending read failed; the chunk is skipped.
    pub fn chunk_failed(&mut self)
        requires
            old(self).wf(),
            !old(self).done(),
        ensures
            final(self).wf(),
            final(self).regions == old(self).regions,
            final(self).needle == old(self).needle,
            final(self).order == old(self).order,
            final(self).chunk_size == old(self).chunk_size,
            final(self).view() == settle(
                old(self).regions@,
                FreshView {
                    cursor: (old(self).cursor + old(self).pending().len) as nat,
                    failed: if old(self).failed_reads < usize::MAX { (old(self).failed_reads + 1) as nat } else { old(self).failed_reads as nat },
                    ..old(self).view()
                },
            ),
    {
        let req = match self.next_read() {
            Some(req) => req,
            None => return,
        };
        if self.failed_reads < usize::MAX {
            self.failed_reads = self.failed_reads + 1;
        }
        self.cursor = self.cursor + req.len as u64;
        self.settle_regions();
    }

    /// The matches of the scan: per region with matches, its pid and addresses.
    /// Called before every chunk is read, it gives the regions finished so far and
    /// drops the partial matches of the region in progress.
    pub fn finish(self) -> (r: Vec<(i32, Vec<u64>)>)
        ensures
            results_view(r@) == self.view().results,
    {
        self.results
    }
}

/// Appends the addresses of the matches of `needle` in `data`, read from `base`.
fn collect_hits(backend: Backend, needle: WrappedValue, order: ByteOrder, base: u64, data: &[u8], out: &mut Vec<u64>)
    requires
        base + data@.len() <= u64::MAX,
    ensures
        final(out)@ == old(out)@ + chunk_hits(needle, order, base as nat, data@),
{
    let t = needle.data_type();
    let q = Query::Equal(needle.bits());
    let w = t.size();
    let n = data.len();
    let ghost all = matches_from(t, order, q, data@, 0);
    let mut start: usize = 0;
    while start < n
        invariant
            n == data@.len(),
            w == t.width(),
            t == needle.kind(),
            q == Query::Equal(needle.raw() as u64),
            base + n <= u64::MAX,
            old(out)@ + addresses(base as nat, all) == out@ + addresses(base as nat, matches_from(t, order, q, data@, start as nat)),
        decreases n - start,
    {
        let found = backend.find_from(t, order, q, data, start);
        proof {
            lemma_scan_from(t, order, q, data@, start as nat);
            lemma_matches_from_scan(t, order, q, data@, start as nat);
        }
        match found {
            Some(x) => {
                let ghost rest = matches_from(t, order, q, data@, (x + w) as nat);
                assert(addresses(base as nat, seq![x as nat] + rest) =~= seq![(base + x) as u64] + addresses(base as nat, rest));
                out.push(base + x as u64);
                assert(out@ + addresses(base as nat, rest) =~= old(out)@ + addresses(base as nat, all));
                start = x + w;
            },
            None => {
                assert(addresses(base as nat, Seq::<nat>::empty()) =~= Seq::<u64>::empty());
                assert(out@ + Seq::<u64>::empty() =~= out@);
                start = n;
            },
        }
    }
    assert(matches_from(t, order, q, data@, start as nat) =~= Seq::<nat>::empty());
    assert(addresses(base as nat, Seq::<nat>::empty()) =~= Seq::<u64>::empty());
    assert(out@ + Seq::<u64>::empty() =~= out@);
}

} // verus!
