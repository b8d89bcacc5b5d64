//! Typed entry points of the scanner and the iterators that find every match.
use vstd::prelude::*;
use crate::data_types::{ByteOrder, DataType};
use crate::lanes::{as_offset, first_match, lemma_scan_from, Query};
use crate::scan::find_native;

verus! {

/// The bit pattern of an `f32`.
#[derive(Debug, PartialEq, Eq, Structural, Clone, Copy)]
pub struct F32Bits(pub u32);

/// The bit pattern of an `f64`.
#[derive(Debug, PartialEq, Eq, Structural, Clone, Copy)]
pub struct F64Bits(pub u64);

/// A scalar that can be searched for: its lane type and its bit pattern.
pub trait LaneValue: Sized + Copy {
    spec fn lane_type() -> DataType;

    spec fn lane_bits(self) -> u64;

    fn data_type() -> (r: DataType)
        ensures
            r == Self::lane_type(),
    ;

    fn bits(self) -> (r: u64)
        ensures
            r == self.lane_bits(),
    ;
}

impl LaneValue for u8 {
    open spec fn lane_type() -> DataType {
        DataType::U8
    }

    open spec fn lane_bits(self) -> u64 {
        self as u64
    }

    fn data_type() -> (r: DataType) {
        DataType::U8
    }

    fn bits(self) -> (r: u64) {
        self as u64
    }
}

impl LaneValue for u16 {
    open spec fn lane_type() -> DataType {
        DataType::U16
    }

    open spec fn lane_bits(self) -> u64 {
        self as u64
    }

    fn data_type() -> (r: DataType) {
        DataType::U16
    }

    fn bits(self) -> (r: u64) {
        self as u64
    }
}

impl LaneValue for u32 {
    open spec fn lane_type() -> DataType {
        DataType::U32
    }

    open spec fn lane_bits(self) -> u64 {
        self as u64
    }

    fn data_type() -> (r: DataType) {
        DataType::U32
    }

    fn bits(self) -> (r: u64) {
        self as u64
    }
}

impl LaneValue for u64 {
    open spec fn lane_type() -> DataType {
        DataType::U64
    }

    open spec fn lane_bits(self) -> u64 {
        self
    }

    fn data_type() -> (r: DataType) {
        DataType::U64
    }

    fn bits(self) -> (r: u64) {
        self
    }
}

impl LaneValue for F32Bits {
    open spec fn lane_type() -> DataType {
        DataType::F32
    }

    open spec fn lane_bits(self) -> u64 {
        self.0 as u64
    }

    fn data_type() -> (r: DataType) {
        DataType::F32
    }

    fn bits(self) -> (r: u64) {
        self.0 as u64
    }
}

impl LaneValue for F64Bits {
    open spec fn lane_type() -> DataType {
        DataType::F64
    }

    open spec fn lane_bits(self) -> u64 {
        self.0
    }

    fn data_type() -> (r: DataType) {
        DataType::F64
    }

    fn bits(self) -> (r: u64) {
        self.0
    }
}

/// The three searches of one lane type, in the host's byte order.
pub trait Needle: LaneValue {
    /// The first aligned offset whose lane equals `needle`.
    fn find_next(needle: Self, haystack: &[u8]) -> (r: Option<usize>)
        ensures
            exists|o: ByteOrder| as_offset(r) == #[trigger] first_match(Self::lane_type(), o, Query::Equal(needle.lane_bits()), haystack@),
    ;

    /// The first aligned offset whose lane lies in `[start, end]`.
    fn find_inclusive_range(start: Self, end: Self, haystack: &[u8]) -> (r: Option<usize>)
        ensures
            exists|o: ByteOrder| as_offset(r) == #[trigger] first_match(Self::lane_type(), o, Query::Inclusive(start.lane_bits(), end.lane_bits()), haystack@),
    ;

    /// The first aligned offset whose lane lies in `(start, end)`.
    fn find_exclusive_range(start: Self, end: Self, haystack: &[u8]) -> (r: Option<usize>)
        ensures
            exists|o: ByteOrder| as_offset(r) == #[trigger] first_match(Self::lane_type(), o, Query::Exclusive(start.lane_bits(), end.lane_bits()), haystack@),
    ;
}

impl<T: LaneValue> Needle for T {
    fn find_next(needle: Self, haystack: &[u8]) -> (r: Option<usize>) {
        find_native(T::data_type(), Query::Equal(needle.bits()), haystack)
    }

    fn find_inclusive_range(start: Self, end: Self, haystack: &[u8]) -> (r: Option<usize>) {
        find_native(T::data_type(), Query::Inclusive(start.bits(), end.bits()), haystack)
    }

    fn find_exclusive_range(start: Self, end: Self, haystack: &[u8]) -> (r: Option<usize>) {
        find_native(T::data_type(), Query::Exclusive(start.bits(), end.bits()), haystack)
    }
}

/// The first aligned offset of `haystack` whose u8 lane equals `needle`.
pub fn find_first_u8(needle: u8, haystack: &[u8]) -> (r: Option<usize>)
    ensures
        exists|o: ByteOrder| as_offset(r) == #[trigger] first_match(DataType::U8, o, Query::Equal(needle as u64), haystack@),
{
    <u8 as Needle>::find_next(needle, haystack)
}

/// The first aligned offset of `haystack` whose u8 lane lies in `[lower, upper]`.
pub fn find_inclusive_u8(lower: u8, upper: u8, haystack: &[u8]) -> (r: Option<usize>)
    ensures
        exists|o: ByteOrder| as_offset(r) == #[trigger] first_match(DataType::U8, o, Query::Inclusive(lower as u64, upper as u64), haystack@),
{
    <u8 as Needle>::find_inclusive_range(lower, upper, haystack)
}

/// The first aligned offset of `haystack` whose u8 lane lies in `(lower, upper)`.
pub fn find_exclusive_u8(lower: u8, upper: u8, haystack: &[u8]) -> (r: Option<usize>)
    ensures
        exists|o: ByteOrder| as_offset(r) == #[trigger] first_match(DataType::U8, o, Query::Exclusive(lower as u64, upper as u64), haystack@),
{
    <u8 as Needle>::find_exclusive_range(lower, upper, haystack)
}

/// The first aligned offset of `haystack` whose u16 lane equals `needle`.
pub fn find_first_u16(needle: u16, haystack: &[u8]) -> (r: Option<usize>)
    ensures
        exists|o: ByteOrder| as_offset(r) == #[trigger] first_match(DataType::U16, o, Query::Equal(needle as u64), haystack@),
{
    <u16 as Needle>::find_next(needle, haystack)
}

/// The first aligned offset of `haystack` whose u16 lane lies in `[lower, upper]`.
pub fn find_inclusive_u16(lower: u16, upper: u16, haystack: &[u8]) -> (r: Option<usize>)
    ensures
        exists|o: ByteOrder| as_offset(r) == #[trigger] first_match(DataType::U16, o, Query::Inclusive(lower as u64, upper as u64), haystack@),
{
    <u16 as Needle>::find_inclusive_range(lower, upper, haystack)
}

/// The first aligned offset of `haystack` whose u16 lane lies in `(lower, upper)`.
pub fn find_exclusive_u16(lower: u16, upper: u16, haystack: &[u8]) -> (r: Option<usize>)
    ensures
        exists|o: ByteOrder| as_offset(r) == #[trigger] first_match(DataType::U16, o, Query::Exclusive(lower as u64, upper as u64), haystack@),
{
    <u16 as Needle>::find_exclusive_range(lower, upper, haystack)
}

/// The first aligned offset of `haystack` whose u32 lane equals `needle`.
pub fn find_first_u32(needle: u32, haystack: &[u8]) -> (r: Option<usize>)
    ensures
        exists|o: ByteOrder| as_offset(r) == #[trigger] first_match(DataType::U32, o, Query::Equal(needle as u64), haystack@),
{
    <u32 as Needle>::find_next(needle, haystack)
}

/// The first aligned offset of `haystack` whose u32 lane lies in `[lower, upper]`.
pub fn find_inclusive_u32(lower: u32, upper: u32, haystack: &[u8]) -> (r: Option<usize>)
    ensures
        exists|o: ByteOrder| as_offset(r) == #[trigger] first_match(DataType::U32, o, Query::Inclusive(lower as u64, upper as u64), haystack@),
{
    <u32 as Needle>::find_inclusive_range(lower, upper, haystack)
}

/// The first aligned offset of `haystack` whose u32 lane lies in `(lower, upper)`.
pub fn find_exclusive_u32(lower: u32, upper: u32, haystack: &[u8]) -> (r: Option<usize>)
    ensures
        exists|o: ByteOrder| as_offset(r) == #[trigger] first_match(DataType::U32, o, Query::Exclusive(lower as u64, upper as u64), haystack@),
{
    <u32 as Needle>::find_exclusive_range(lower, upper, haystack)
}

/// The first aligned offset of `haystack` whose u64 lane equals `needle`.
pub fn find_first_u64(needle: u64, haystack: &[u8]) -> (r: Option<usize>)
    ensures
        exists|o: ByteOrder| as_offset(r) == #[trigger] first_match(DataType::U64, o, Query::Equal(needle), haystack@),
{
    <u64 as Needle>::find_next(needle, haystack)
}

/// The first aligned offset of `haystack` whose u64 lane lies in `[lower, upper]`.
pub fn find_inclusive_u64(lower: u64, upper: u64, haystack: &[u8]) -> (r: Option<usize>)
    ensures
        exists|o: ByteOrder| as_offset(r) == #[trigger] first_match(DataType::U64, o, Query::Inclusive(lower, upper), haystack@),
{
    <u64 as Needle>::find_inclusive_range(lower, upper, haystack)
}

/// The first aligned offset of `haystack` whose u64 lane lies in `(lower, upper)`.
pub fn find_exclusive_u64(lower: u64, upper: u64, haystack: &[u8]) -> (r: Option<usize>)
    ensures
        exists|o: ByteOrder| as_offset(r) == #[trigger] first_match(DataType::U64, o, Query::Exclusive(lower, upper), haystack@),
{
    <u64 as Needle>::find_exclusive_range(lower, upper, haystack)
}

/// The first aligned offset of `haystack` whose f32 lane equals `needle`.
pub fn find_first_f32(needle: F32Bits, haystack: &[u8]) -> (r: Option<usize>)
    ensures
        exists|o: ByteOrder| as_offset(r) == #[trigger] first_match(DataType::F32, o, Query::Equal(needle.0 as u64), haystack@),
{
    <F32Bits as Needle>::find_next(needle, haystack)
}

/// The first aligned offset of `haystack` whose f32 lane lies in `[lower, upper]`.
pub fn find_inclusive_f32(lower: F32Bits, upper: F32Bits, haystack: &[u8]) -> (r: Option<usize>)
    ensures
        exists|o: ByteOrder| as_offset(r) == #[trigger] first_match(DataType::F32, o, Query::Inclusive(lower.0 as u64, upper.0 as u64), haystack@),
{
    <F32Bits as Needle>::find_inclusive_range(lower, upper, haystack)
}

/// The first aligned offset of `haystack` whose f32 lane lies in `(lower, upper)`.
pub fn find_exclusive_f32(lower: F32Bits, upper: F32Bits, haystack: &[u8]) -> (r: Option<usize>)
    ensures
        exists|o: ByteOrder| as_offset(r) == #[trigger] first_match(DataType::F32, o, Query::Exclusive(lower.0 as u64, upper.0 as u64), haystack@),
{
    <F32Bits as Needle>::find_exclusive_range(lower, upper, haystack)
}

/// The first aligned offset of `haystack` whose f64 lane equals `needle`.
pub fn find_first_f64(needle: F64Bits, haystack: &[u8]) -> (r: Option<usize>)
    ensures
        exists|o: ByteOrder| as_offset(r) == #[trigger] first_match(DataType::F64, o, Query::Equal(needle.0), haystack@),
{
    <F64Bits as Needle>::find_next(needle, haystack)
}

/// The first aligned offset of `haystack` whose f64 lane lies in `[lower, upper]`.
pub fn find_inclusive_f64(lower: F64Bits, upper: F64Bits, haystack: &[u8]) -> (r: Option<usize>)
    ensures
        exists|o: ByteOrder| as_offset(r) == #[trigger] first_match(DataType::F64, o, Query::Inclusive(lower.0, upper.0), haystack@),
{
    <F64Bits as Needle>::find_inclusive_range(lower, upper, haystack)
}

/// The first aligned offset of `haystack` whose f64 lane lies in `(lower, upper)`.
pub fn find_exclusive_f64(lower: F64Bits, upper: F64Bits, haystack: &[u8]) -> (r: Option<usize>)
    ensures
        exists|o: ByteOrder| as_offset(r) == #[trigger] first_match(DataType::F64, o, Query::Exclusive(lower.0, upper.0), haystack@),
{
    <F64Bits as Needle>::find_exclusive_range(lower, upper, haystack)
}

/// One step of a search iterator at cursor `cur`: the match it reports and the
/// cursor after it. Once the cursor reaches the end the search stays exhausted.
pub open spec fn search_step(t: DataType, q: Query, hay: Seq<u8>, cur: nat, r: Option<usize>, next: nat) -> bool {
    if cur >= hay.len() {
        r is None && next == cur
    } else {
        exists|o: ByteOrder| {
            match #[trigger] first_match(t, o, q, hay.subrange(cur as int, hay.len() as int)) {
                Some(x) => r == Some((cur + x) as usize) && next == cur + x + t.width(),
                None => r is None && next == hay.len(),
            }
        }
    }
}

/// Offsets reported by successive steps of a search iterator increase by at
/// least the lane width.
pub proof fn lemma_search_steps_increase(
    t: DataType,
    q: Query,
    hay: Seq<u8>,
    c0: nat,
    r1: Option<usize>,
    c1: nat,
    r2: Option<usize>,
    c2: nat,
)
    requires
        hay.len() <= usize::MAX,
        search_step(t, q, hay, c0, r1, c1),
        search_step(t, q, hay, c1, r2, c2),
        r1 is Some,
        r2 is Some,
    ensures
        r2->0 >= r1->0 + t.width(),
        c2 > c1 > c0,
{
    let s0 = hay.subrange(c0 as int, hay.len() as int);
    let o0 = choose|o: ByteOrder| match #[trigger] first_match(t, o, q, s0) {
        Some(x) => r1 == Some((c0 + x) as usize) && c1 == c0 + x + t.width(),
        None => r1 is None && c1 == hay.len(),
    };
    lemma_scan_from(t, o0, q, s0, 0);
    let s1 = hay.subrange(c1 as int, hay.len() as int);
    let o1 = choose|o: ByteOrder| match #[trigger] first_match(t, o, q, s1) {
        Some(x) => r2 == Some((c1 + x) as usize) && c2 == c1 + x + t.width(),
        None => r2 is None && c2 == hay.len(),
    };
    lemma_scan_from(t, o1, q, s1, 0);
}

/// Every offset of the haystack at which a lane equals the needle, in order.
pub struct MemorySearch<'a, T: Needle> {
    pub needle: T,
    pub haystack: &'a [u8],
    pub current: usize,
}

impl<'a, T: Needle> MemorySearch<'a, T> {
    pub fn new(needle: T, haystack: &'a [u8]) -> (r: Self)
        ensures
            r.needle == needle,
            r.haystack@ == haystack@,
            r.current == 0,
    {
        MemorySearch { needle, haystack, current: 0 }
    }

    /// The next match after the previous one, or `None` once exhausted.
    pub fn next(&mut self) -> (r: Option<usize>)
        ensures
            final(self).needle == old(self).needle,
            final(self).haystack@ == old(self).haystack@,
            search_step(T::lane_type(), Query::Equal(old(self).needle.lane_bits()), old(self).haystack@, old(self).current as nat, r, final(self).current as nat),
    {
        let n = self.haystack.len();
        if self.current >= n {
            return None;
        }
        let rest = vstd::slice::slice_subrange(self.haystack, self.current, n);
        let found = T::find_next(self.needle, rest);
        step_cursor::<T>(&mut self.current, n, found, Ghost(Query::Equal(self.needle.lane_bits())), Ghost(self.haystack@))
    }
}

/// Every offset of the haystack at which a lane lies in `[lower_bounds, upper_bounds]`.
pub struct InclusiveRangeSearch<'a, T: Needle> {
    pub lower_bounds: T,
    pub upper_bounds: T,
    pub haystack: &'a [u8],
    pub current: usize,
}

impl<'a, T: Needle> InclusiveRangeSearch<'a, T> {
    pub fn new(lower_bounds: T, upper_bounds: T, haystack: &'a [u8]) -> (r: Self)
        ensures
            r.lower_bounds == lower_bounds,
            r.upper_bounds == upper_bounds,
            r.haystack@ == haystack@,
            r.current == 0,
    {
        InclusiveRangeSearch { lower_bounds, upper_bounds, haystack, current: 0 }
    }

    /// The next match after the previous one, or `None` once exhausted.
    pub fn next(&mut self) -> (r: Option<usize>)
        ensures
            final(self).lower_bounds == old(self).lower_bounds,
            final(self).upper_bounds == old(self).upper_bounds,
            final(self).haystack@ == old(self).haystack@,
            search_step(
                T::lane_type(),
                Query::Inclusive(old(self).lower_bounds.lane_bits(), old(self).upper_bounds.lane_bits()),
                old(self).haystack@,
                old(self).current as nat,
                r,
                final(self).current as nat,
            ),
    {
        let n = self.haystack.len();
        if self.current >= n {
            return None;
        }
        let rest = vstd::slice::slice_subrange(self.haystack, self.current, n);
        let found = T::find_inclusive_range(self.lower_bounds, self.upper_bounds, rest);
        step_cursor::<T>(
            &mut self.current,
            n,
            found,
            Ghost(Query::Inclusive(self.lower_bounds.lane_bits(), self.upper_bounds.lane_bits())),
            Ghost(self.haystack@),
        )
    }
}

/// Every offset of the haystack at which a lane lies in `(lower_bounds, upper_bounds)`.
pub struct ExclusiveRangeSearch<'a, T: Needle> {
    pub lower_bounds: T,
    pub upper_bounds: T,
    pub haystack: &'a [u8],
    pub current: usize,
}

impl<'a, T: Needle> ExclusiveRangeSearch<'a, T> {
    pub fn new(lower_bounds: T, upper_bounds: T, haystack: &'a [u8]) -> (r: Self)
        ensures
            r.lower_bounds == lower_bounds,
            r.upper_bounds == upper_bounds,
            r.haystack@ == haystack@,
            r.current == 0,
    {
        ExclusiveRangeSearch { lower_bounds, upper_bounds, haystack, current: 0 }
    }

    /// The next match after the previous one, or `None` once exhausted.
    pub fn next(&mut self) -> (r: Option<usize>)
        ensures
            final(self).lower_bounds == old(self).lower_bounds,
            final(self).upper_bounds == old(self).upper_bounds,
            final(self).haystack@ == old(self).haystack@,
            search_step(
                T::lane_type(),
                Query::Exclusive(old(self).lower_bounds.lane_bits(), old(self).upper_bounds.lane_bits()),
                old(self).haystack@,
                old(self).current as nat,
                r,
                final(self).current as nat,
            ),
    {
        let n = self.haystack.len();
        if self.current >= n {
            return None;
        }
        let rest = vstd::slice::slice_subrange(self.haystack, self.current, n);
        let found = T::find_exclusive_range(self.lower_bounds, self.upper_bounds, rest);
        step_cursor::<T>(
            &mut self.current,
            n,
            found,
            Ghost(Query::Exclusive(self.lower_bounds.lane_bits(), self.upper_bounds.lane_bits())),
            Ghost(self.haystack@),
        )
    }
}

/// Moves a cursor past the match found in the rest of the haystack.
fn step_cursor<T: Needle>(current: &mut usize, n: usize, found: Option<usize>, q: Ghost<Query>, hay: Ghost<Seq<u8>>) -> (r: Option<usize>)
    requires
        *old(current) < n,
        n == hay@.len(),
        exists|o: ByteOrder| as_offset(found) == #[trigger] first_match(T::lane_type(), o, q@, hay@.subrange(*old(current) as int, n as int)),
    ensures
        search_step(T::lane_type(), q@, hay@, *old(current) as nat, r, *final(current) as nat),
{
    let ghost rest = hay@.subrange(*old(current) as int, n as int);
    let ghost o = choose|o: ByteOrder| as_offset(found) == #[trigger] first_match(T::lane_type(), o, q@, rest);
    proof {
        lemma_scan_from(T::lane_type(), o, q@, rest, 0);
    }
    match found {
        Some(x) => {
            let at = *current + x;
            *current = at + T::data_type().size();
            assert(first_match(T::lane_type(), o, q@, rest) == Some(x as nat));
            Some(at)
        },
        None => {
            *current = n;
            assert(first_match(T::lane_type(), o, q@, rest) is None);
            None
        },
    }
}

} // verus!
