//! Which mappings of a process a search covers.
use vstd::prelude::*;
use crate::fresh::SearchRegion;

verus! {

/// The region class a search looks at.
#[derive(Debug, PartialEq, Eq, Structural, Clone, Copy)]
pub enum SearchScope {
    Stack,
    Heap,
    Both,
    /// Every mapping that can be read.
    All,
}

impl Default for SearchScope {
    fn default() -> (r: SearchScope)
        ensures
            r == SearchScope::Both,
    {
        SearchScope::Both
    }
}

/// What a mapping holds, as far as a scope cares.
#[derive(Debug, PartialEq, Eq, Structural, Clone, Copy)]
pub enum MapKind {
    /// The main thread's stack.
    Stack,
    /// The program break heap.
    Heap,
    Other,
}

/// One mapping of a process's address space: `[start, end)`.
#[derive(Debug, PartialEq, Eq, Structural, Clone, Copy)]
pub struct Mapping {
    pub pid: i32,
    pub start: u64,
    pub end: u64,
    pub kind: MapKind,
    pub readable: bool,
}

impl SearchScope {
    pub open spec fn covers(self, map: Mapping) -> bool {
        match self {
            SearchScope::Stack => map.kind == MapKind::Stack,
            SearchScope::Heap => map.kind == MapKind::Heap,
            SearchScope::Both => map.kind == MapKind::Heap || map.kind == MapKind::Stack,
            SearchScope::All => map.readable,
        }
    }

    pub fn is_in_scope(self, map: &Mapping) -> (r: bool)
        ensures
            r == self.covers(*map),
    {
        match self {
            SearchScope::Stack => map.kind == MapKind::Stack,
            SearchScope::Heap => map.kind == MapKind::Heap,
            SearchScope::Both => map.kind == MapKind::Heap || map.kind == MapKind::Stack,
            SearchScope::All => map.readable,
        }
    }
}

/// The regions of the mappings that the scope covers, in the mappings' order.
pub open spec fn regions_in(maps: Seq<Mapping>, scope: SearchScope) -> Seq<SearchRegion>
    decreases maps.len(),
{
    if maps.len() == 0 {
        Seq::empty()
    } else {
        let m = maps.last();
        let rest = regions_in(maps.drop_last(), scope);
        if scope.covers(m) { rest.push(SearchRegion { pid: m.pid, start: m.start, end: m.end }) } else { rest }
    }
}

impl SearchRegion {
    /// The regions to search: the mappings that `scope` covers.
    pub fn load(maps: &Vec<Mapping>, scope: SearchScope) -> (r: Vec<SearchRegion>)
        ensures
            r@ == regions_in(maps@, scope),
    {
        let mut regions: Vec<SearchRegion> = Vec::new();
        let mut i: usize = 0;
        while i < maps.len()
            invariant
                i <= maps.len(),
                regions@ == regions_in(maps@.take(i as int), scope),
            decreases maps.len() - i,
        {
            let m = maps[i];
            assert(maps@.take(i + 1).drop_last() =~= maps@.take(i as int));
            if scope.is_in_scope(&m) {
                regions.push(SearchRegion { pid: m.pid, start: m.start, end: m.end });
            }
            i = i + 1;
        }
        assert(maps@.take(maps.len() as int) =~= maps@);
        regions
    }
}

} // verus!
