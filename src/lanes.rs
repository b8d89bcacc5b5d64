//! What it means for one lane of a buffer to satisfy a query, and the scalar scan.
//!
//! Float lanes are held as their IEEE-754 bit patterns. Comparisons on them follow
//! IEEE-754 ordered comparison: a NaN compares false with everything, and the two
//! zeros are equal.
use vstd::prelude::*;
use crate::data_types::{be_value, bytes_value, le_value, lemma_width_modulus, pow256, read_unsigned, ByteOrder, DataType};

verus! {

/// A search: one needle, or the bounds of a range, as bit patterns of the lane type.
#[derive(Debug, PartialEq, Eq, Structural, Clone, Copy)]
pub enum Query {
    Equal(u64),
    Inclusive(u64, u64),
    Exclusive(u64, u64),
}

/// Weight of the sign bit of a float type.
pub open spec fn sign_weight(t: DataType) -> nat {
    if t == DataType::F32 { 0x8000_0000 } else { 0x8000_0000_0000_0000 }
}

/// Weight of the lowest exponent bit of a float type (the span of the mantissa).
pub open spec fn mantissa_span(t: DataType) -> nat {
    if t == DataType::F32 { 0x80_0000 } else { 0x10_0000_0000_0000 }
}

/// The all-ones exponent of a float type.
pub open spec fn exponent_max(t: DataType) -> nat {
    if t == DataType::F32 { 0xff } else { 0x7ff }
}

/// Whether the bit pattern `b` is a NaN of float type `t`.
pub open spec fn is_nan(t: DataType, b: nat) -> bool {
    &&& t.is_float()
    &&& (b / mantissa_span(t)) % (exponent_max(t) + 1) == exponent_max(t)
    &&& b % mantissa_span(t) != 0
}

/// Position of a non-NaN float on the number line, as an integer that orders as
/// the float does (both zeros map to 0).
pub open spec fn order_key(t: DataType, b: nat) -> int {
    let m = b % sign_weight(t);
    if (b / sign_weight(t)) % 2 == 1 { -m } else { m as int }
}

pub open spec fn lane_eq(t: DataType, a: nat, b: nat) -> bool {
    if t.is_float() {
        !is_nan(t, a) && !is_nan(t, b) && order_key(t, a) == order_key(t, b)
    } else {
        a == b
    }
}

pub open spec fn lane_lt(t: DataType, a: nat, b: nat) -> bool {
    if t.is_float() {
        !is_nan(t, a) && !is_nan(t, b) && order_key(t, a) < order_key(t, b)
    } else {
        a < b
    }
}

pub open spec fn lane_le(t: DataType, a: nat, b: nat) -> bool {
    if t.is_float() {
        !is_nan(t, a) && !is_nan(t, b) && order_key(t, a) <= order_key(t, b)
    } else {
        a <= b
    }
}

/// Whether a lane holding `x` satisfies the query.
pub open spec fn hit(t: DataType, q: Query, x: nat) -> bool {
    match q {
        Query::Equal(n) => lane_eq(t, x, n as nat),
        Query::Inclusive(lo, hi) => lane_le(t, lo as nat, x) && lane_le(t, x, hi as nat),
        Query::Exclusive(lo, hi) => lane_lt(t, lo as nat, x) && lane_lt(t, x, hi as nat),
    }
}

/// The lane of type `t` that starts at byte `o`.
pub open spec fn lane_at(t: DataType, order: ByteOrder, s: Seq<u8>, o: nat) -> nat {
    bytes_value(order, s.subrange(o as int, (o + t.width()) as int))
}

/// Whether a whole lane starts at `o` and satisfies the query.
pub open spec fn matches_at(t: DataType, order: ByteOrder, q: Query, s: Seq<u8>, o: nat) -> bool {
    o + t.width() <= s.len() && hit(t, q, lane_at(t, order, s, o))
}

/// The first lane at `o`, `o + width`, `o + 2 * width`, ... that satisfies the query.
pub open spec fn scan_from(t: DataType, order: ByteOrder, q: Query, s: Seq<u8>, o: nat) -> Option<nat>
    decreases s.len() - o,
{
    if o + t.width() > s.len() || t.width() == 0 {
        None
    } else if hit(t, q, lane_at(t, order, s, o)) {
        Some(o)
    } else {
        scan_from(t, order, q, s, o + t.width())
    }
}

/// The smallest aligned offset whose lane satisfies the query.
pub open spec fn first_match(t: DataType, order: ByteOrder, q: Query, s: Seq<u8>) -> Option<nat> {
    scan_from(t, order, q, s, 0)
}

/// An executable offset seen as a mathematical one.
pub open spec fn as_offset(r: Option<usize>) -> Option<nat> {
    match r {
        Some(o) => Some(o as nat),
        None => None,
    }
}

fn is_nan_bits(t: DataType, b: u64) -> (r: bool)
    requires
        t.is_float(),
    ensures
        r == is_nan(t, b as nat),
{
    match t {
        DataType::F32 => (b / 0x80_0000) % 0x100 == 0xff && b % 0x80_0000 != 0,
        _ => (b / 0x10_0000_0000_0000) % 0x800 == 0x7ff && b % 0x10_0000_0000_0000 != 0,
    }
}

fn order_key_bits(t: DataType, b: u64) -> (r: i64)
    requires
        t.is_float(),
    ensures
        r == order_key(t, b as nat),
{
    let w: u64 = if let DataType::F32 = t { 0x8000_0000 } else { 0x8000_0000_0000_0000 };
    let m = (b % w) as i64;
    if (b / w) % 2 == 1 { -m } else { m }
}

fn lane_eq_bits(t: DataType, a: u64, b: u64) -> (r: bool)
    ensures
        r == lane_eq(t, a as nat, b as nat),
{
    if t.is_float_type() {
        !is_nan_bits(t, a) && !is_nan_bits(t, b) && order_key_bits(t, a) == order_key_bits(t, b)
    } else {
        a == b
    }
}

fn lane_lt_bits(t: DataType, a: u64, b: u64) -> (r: bool)
    ensures
        r == lane_lt(t, a as nat, b as nat),
{
    if t.is_float_type() {
        !is_nan_bits(t, a) && !is_nan_bits(t, b) && order_key_bits(t, a) < order_key_bits(t, b)
    } else {
        a < b
    }
}

fn lane_le_bits(t: DataType, a: u64, b: u64) -> (r: bool)
    ensures
        r == lane_le(t, a as nat, b as nat),
{
    if t.is_float_type() {
        !is_nan_bits(t, a) && !is_nan_bits(t, b) && order_key_bits(t, a) <= order_key_bits(t, b)
    } else {
        a <= b
    }
}

/// Whether the lane value `x` satisfies the query.
pub fn lane_hits(t: DataType, q: Query, x: u64) -> (r: bool)
    ensures
        r == hit(t, q, x as nat),
{
    match q {
        Query::Equal(n) => lane_eq_bits(t, x, n),
        Query::Inclusive(lo, hi) => lane_le_bits(t, lo, x) && lane_le_bits(t, x, hi),
        Query::Exclusive(lo, hi) => lane_lt_bits(t, lo, x) && lane_lt_bits(t, x, hi),
    }
}

/// Reads the lane of type `t` at byte `o`.
pub fn read_lane(t: DataType, order: ByteOrder, buf: &[u8], o: usize) -> (r: u64)
    requires
        o + t.width() <= buf@.len(),
    ensures
        r as nat == lane_at(t, order, buf@, o as nat),
{
    proof {
        lemma_width_modulus(t);
    }
    read_unsigned(buf, o, t.size(), order)
}

/// Scans lane by lane from byte `start`.
pub fn scan_scalar_from(t: DataType, order: ByteOrder, q: Query, buf: &[u8], start: usize) -> (r: Option<usize>)
    ensures
        as_offset(r) == scan_from(t, order, q, buf@, start as nat),
{
    let n = buf.len();
    let w = t.size();
    let mut i = start;
    while i <= n && w <= n - i
        invariant
            n == buf@.len(),
            w == t.width(),
            1 <= w <= 8,
            scan_from(t, order, q, buf@, start as nat) == scan_from(t, order, q, buf@, i as nat),
        decreases n - i,
    {
        if lane_hits(t, q, read_lane(t, order, buf, i)) {
            return Some(i);
        }
        i = i + w;
    }
    None
}

/// The scalar backend: the smallest aligned offset whose lane satisfies the query.
pub fn find_scalar(t: DataType, order: ByteOrder, q: Query, buf: &[u8]) -> (r: Option<usize>)
    ensures
        as_offset(r) == first_match(t, order, q, buf@),
{
    scan_scalar_from(t, order, q, buf, 0)
}

proof fn lemma_lattice_step(o: int, y: int, w: int)
    requires
        w == 1 || w == 2 || w == 4 || w == 8,
        o < y,
        (y - o) % w == 0,
    ensures
        o + w <= y,
        (y - (o + w)) % w == 0,
{
}

proof fn lemma_lattice_back(o: int, y: int, w: int)
    requires
        w == 1 || w == 2 || w == 4 || w == 8,
        (y - (o + w)) % w == 0,
    ensures
        (y - o) % w == 0,
{
}

/// What `scan_from` returns: the first lane at or after `o`, on the lattice of
/// `o`, that satisfies the query, or `None` when no lane there does.
pub proof fn lemma_scan_from(t: DataType, order: ByteOrder, q: Query, s: Seq<u8>, o: nat)
    ensures
        scan_from(t, order, q, s, o) matches Some(x) ==> {
            &&& o <= x
            &&& (x - o) % (t.width() as int) == 0
            &&& x + t.width() <= s.len()
            &&& hit(t, q, lane_at(t, order, s, x))
            &&& forall|y: nat| o <= y < x && (y - o) % (t.width() as int) == 0 ==> !#[trigger] hit(t, q, lane_at(t, order, s, y))
        },
        scan_from(t, order, q, s, o) is None ==> forall|y: nat|
            o <= y && (y - o) % (t.width() as int) == 0 && y + t.width() <= s.len() ==> !#[trigger] hit(t, q, lane_at(t, order, s, y)),
    decreases s.len() - o,
{
    let w = t.width();
    assert(w == 1 || w == 2 || w == 4 || w == 8);
    if o + w <= s.len() && !hit(t, q, lane_at(t, order, s, o)) {
        lemma_scan_from(t, order, q, s, o + w);
        if let Some(x) = scan_from(t, order, q, s, o) {
            lemma_lattice_back(o as int, x as int, w as int);
            assert forall|y: nat| o <= y < x && (y - o) % (w as int) == 0 implies !#[trigger] hit(t, q, lane_at(t, order, s, y)) by {
                if y > o {
                    lemma_lattice_step(o as int, y as int, w as int);
                }
            }
        } else {
            assert forall|y: nat| o <= y && (y - o) % (w as int) == 0 && y + w <= s.len() implies !#[trigger] hit(t, q, lane_at(t, order, s, y)) by {
                if y > o {
                    lemma_lattice_step(o as int, y as int, w as int);
                }
            }
        }
    } else if o + w <= s.len() {
        assert((o - o) % (w as int) == 0);
    }
}

/// Every lane at `o`, `o + width`, ... that satisfies the query, in ascending order.
pub open spec fn matches_from(t: DataType, order: ByteOrder, q: Query, s: Seq<u8>, o: nat) -> Seq<nat>
    decreases s.len() - o,
{
    if o + t.width() > s.len() || t.width() == 0 {
        Seq::empty()
    } else if hit(t, q, lane_at(t, order, s, o)) {
        seq![o] + matches_from(t, order, q, s, o + t.width())
    } else {
        matches_from(t, order, q, s, o + t.width())
    }
}

/// The list of matches continues at the next match that a scan finds.
pub proof fn lemma_matches_from_scan(t: DataType, order: ByteOrder, q: Query, s: Seq<u8>, o: nat)
    ensures
        scan_from(t, order, q, s, o) matches Some(x) ==> matches_from(t, order, q, s, o) == seq![x] + matches_from(t, order, q, s, x + t.width()),
        scan_from(t, order, q, s, o) is None ==> matches_from(t, order, q, s, o) == Seq::<nat>::empty(),
    decreases s.len() - o,
{
    if o + t.width() <= s.len() && t.width() > 0 && !hit(t, q, lane_at(t, order, s, o)) {
        lemma_matches_from_scan(t, order, q, s, o + t.width());
    }
}

/// The first match is the least aligned offset whose lane satisfies the query,
/// so every backend that reports the least such offset reports the same one.
pub proof fn lemma_first_match_is_least(t: DataType, order: ByteOrder, q: Query, s: Seq<u8>)
    ensures
        first_match(t, order, q, s) matches Some(x) ==> {
            &&& x % t.width() == 0
            &&& matches_at(t, order, q, s, x)
            &&& forall|y: nat| y < x && y % t.width() == 0 ==> !#[trigger] matches_at(t, order, q, s, y)
        },
        first_match(t, order, q, s) is None ==> forall|y: nat|
            y % t.width() == 0 ==> !#[trigger] matches_at(t, order, q, s, y),
{
    lemma_scan_from(t, order, q, s, 0);
    if let Some(x) = first_match(t, order, q, s) {
        assert forall|y: nat| y < x && y % t.width() == 0 implies !#[trigger] matches_at(t, order, q, s, y) by {
            assert((y - 0) % (t.width() as int) == y % t.width());
        }
    } else {
        assert forall|y: nat| y % t.width() == 0 implies !#[trigger] matches_at(t, order, q, s, y) by {
            assert((y - 0) % (t.width() as int) == y % t.width());
        }
    }
}

/// A NaN needle matches no lane, and a range search reports only lanes that are
/// not NaN and lie between the bounds.
pub proof fn lemma_nan_never_matches(t: DataType, order: ByteOrder, q: Query, s: Seq<u8>)
    requires
        t.is_float(),
    ensures
        q matches Query::Equal(n) && is_nan(t, n as nat) ==> first_match(t, order, q, s) is None,
        first_match(t, order, q, s) matches Some(x) ==> !is_nan(t, lane_at(t, order, s, x)),
        first_match(t, order, q, s) matches Some(x) ==> match q {
            Query::Inclusive(lo, hi) => order_key(t, lo as nat) <= order_key(t, lane_at(t, order, s, x)) <= order_key(t, hi as nat),
            Query::Exclusive(lo, hi) => order_key(t, lo as nat) < order_key(t, lane_at(t, order, s, x)) < order_key(t, hi as nat),
            Query::Equal(n) => order_key(t, n as nat) == order_key(t, lane_at(t, order, s, x)),
        },
{
    lemma_scan_from(t, order, q, s, 0);
}

/// The `w` bytes of `v`, least significant first.
pub open spec fn le_bytes(v: nat, w: nat) -> Seq<u8>
    decreases w,
{
    if w == 0 {
        Seq::empty()
    } else {
        seq![(v % 256) as u8] + le_bytes(v / 256, (w - 1) as nat)
    }
}

/// `b` written `k` times in a row.
pub open spec fn repeated(b: Seq<u8>, k: nat) -> Seq<u8>
    decreases k,
{
    if k == 0 {
        Seq::empty()
    } else {
        b + repeated(b, (k - 1) as nat)
    }
}

proof fn lemma_le_bytes(v: nat, w: nat)
    requires
        v < pow256(w),
    ensures
        le_bytes(v, w).len() == w,
        le_value(le_bytes(v, w)) == v,
    decreases w,
{
    if w > 0 {
        lemma_le_bytes(v / 256, (w - 1) as nat);
        assert(le_bytes(v, w).drop_first() =~= le_bytes(v / 256, (w - 1) as nat));
    }
}

proof fn lemma_repeated_lane(b: Seq<u8>, k: nat, x: nat)
    requires
        b.len() >= 1,
        x % b.len() == 0,
        x + b.len() <= k * b.len(),
    ensures
        repeated(b, k).len() == k * b.len(),
        repeated(b, k).subrange(x as int, (x + b.len()) as int) == b,
    decreases k,
{
    let w = b.len();
    if k == 0 {
        assert(0 * w == 0);
    } else {
        let r = repeated(b, (k - 1) as nat);
        assert(k * w == (k - 1) * w + w) by (nonlinear_arith);
        if x + w <= (k - 1) * w {
            lemma_repeated_lane(b, (k - 1) as nat, x);
        } else {
            lemma_repeated_len(b, (k - 1) as nat);
        }
        if x == 0 {
            assert(repeated(b, k).subrange(0, w as int) =~= b);
        } else {
            assert(x >= w) by (nonlinear_arith)
                requires
                    x % w == 0,
                    x != 0,
                    w >= 1,
            ;
            assert((x - w) % (w as int) == 0) by (nonlinear_arith)
                requires
                    x % w == 0,
                    x >= w,
                    w >= 1,
            ;
            lemma_repeated_lane(b, (k - 1) as nat, (x - w) as nat);
            assert(repeated(b, k).subrange(x as int, (x + w) as int) =~= r.subrange(x - w, x as int));
        }
    }
}

proof fn lemma_repeated_len(b: Seq<u8>, k: nat)
    ensures
        repeated(b, k).len() == k * b.len(),
    decreases k,
{
    if k > 0 {
        lemma_repeated_len(b, (k - 1) as nat);
        assert(k * b.len() == (k - 1) * b.len() + b.len()) by (nonlinear_arith);
    } else {
        assert(0 * b.len() == 0);
    }
}

/// Scanning an integer `v` over its little-endian bytes written `k` times finds it
/// at offset 0 in little-endian order; in big-endian order it finds nothing unless
/// those bytes read the same both ways.
pub proof fn lemma_endianness_symmetry(t: DataType, v: u64, k: nat)
    requires
        !t.is_float(),
        v < t.modulus(),
        k >= 1,
    ensures
        first_match(t, ByteOrder::Little, Query::Equal(v), repeated(le_bytes(v as nat, t.width()), k)) == Some(0nat),
        be_value(le_bytes(v as nat, t.width())) != v ==> first_match(
            t,
            ByteOrder::Big,
            Query::Equal(v),
            repeated(le_bytes(v as nat, t.width()), k),
        ) is None,
{
    let w = t.width();
    let b = le_bytes(v as nat, w);
    let s = repeated(b, k);
    lemma_width_modulus(t);
    lemma_le_bytes(v as nat, w);
    assert(w <= k * w) by (nonlinear_arith)
        requires
            k >= 1,
    ;
    lemma_repeated_lane(b, k, 0);
    assert(lane_at(t, ByteOrder::Little, s, 0) == v);
    if be_value(b) != v {
        lemma_scan_from(t, ByteOrder::Big, Query::Equal(v), s, 0);
        if let Some(x) = first_match(t, ByteOrder::Big, Query::Equal(v), s) {
            lemma_repeated_len(b, k);
            assert(x % w == 0) by {
                assert((x - 0) % (w as int) == x % w);
            }
            lemma_repeated_lane(b, k, x);
            assert(lane_at(t, ByteOrder::Big, s, x) == be_value(b));
        }
    }
}

} // verus!
