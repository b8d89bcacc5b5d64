//! The block backends and the dispatch between backends.
//!
//! A block backend reads the buffer one register-sized block at a time. For each
//! block it builds a bitmask of the lanes that satisfy the query and takes the
//! first set bit with `trailing_zeros`. Integer lanes set one bit per byte, so the
//! bit index is divided by the lane width; float lanes set one bit per lane.
use vstd::prelude::*;
use crate::data_types::{ByteOrder, DataType};
use crate::lanes::{as_offset, first_match, hit, lane_at, lane_hits, read_lane, scan_from, scan_scalar_from, find_scalar, Query};

verus! {

/// Whether bit `j` of `x` is set.
pub open spec fn bit_set(x: u64, j: int) -> bool {
    (x >> (j as u64)) & 1u64 == 1u64
}

/// Whether lane number `m` of the block that starts at `p` satisfies the query.
pub open spec fn lane_hit_at(t: DataType, order: ByteOrder, q: Query, s: Seq<u8>, p: nat, m: nat) -> bool {
    hit(t, q, lane_at(t, order, s, p + m * t.width()))
}

proof fn lemma_or_run(m: u64, p: u64, w: u64, pw: u64, j: u64)
    by (bit_vector)
    requires
        m < (1u64 << p),
        pw == p + w,
        pw <= 32,
        1 <= w <= 8,
        j < 64,
    ensures
        ((m | (!(0xffff_ffff_ffff_ffffu64 << w) << p)) >> j) & 1u64 == 1u64
            <==> ((m >> j) & 1u64 == 1u64 || (p <= j && j < pw)),
        (m | (!(0xffff_ffff_ffff_ffffu64 << w) << p)) < (1u64 << pw),
        m < (1u64 << pw),
{
}

proof fn lemma_high_bits_clear(m: u64, p: u64, j: u64)
    by (bit_vector)
    requires
        p <= 32,
        m < (1u64 << p),
        p <= j < 64,
    ensures
        (m >> j) & 1u64 == 0u64,
{
}

proof fn lemma_zero_bits(j: u64)
    by (bit_vector)
    requires
        j < 64,
    ensures
        (0u64 >> j) & 1u64 == 0u64,
{
}

/// Skipping `k` lanes that all miss leaves the scan unchanged.
pub proof fn lemma_scan_skip(t: DataType, order: ByteOrder, q: Query, s: Seq<u8>, p: nat, k: nat)
    requires
        p + k * t.width() <= s.len(),
        forall|m: nat| m < k ==> !#[trigger] lane_hit_at(t, order, q, s, p, m),
    ensures
        scan_from(t, order, q, s, p) == scan_from(t, order, q, s, p + k * t.width()),
    decreases k,
{
    let w = t.width();
    if k > 0 {
        assert(p + 0 * w == p);
        assert(!lane_hit_at(t, order, q, s, p, 0));
        assert(w <= k * w) by (nonlinear_arith)
            requires
                k > 0,
        ;
        assert forall|m: nat| m < (k - 1) as nat implies !#[trigger] lane_hit_at(t, order, q, s, p + w, m) by {
            assert((p + w) + m * w == p + (m + 1) * w) by (nonlinear_arith);
            assert(!lane_hit_at(t, order, q, s, p, m + 1));
        }
        assert((p + w) + (k - 1) * w == p + k * w) by (nonlinear_arith)
            requires
                k > 0,
        ;
        lemma_scan_skip(t, order, q, s, p + w, (k - 1) as nat);
    }
}

/// Bitmask of the lanes of the block at `p`: lane `m` owns bits `m * stride ..
/// (m + 1) * stride`, all set when the lane satisfies the query.
fn block_mask(t: DataType, order: ByteOrder, q: Query, buf: &[u8], p: usize, lanes: usize, stride: u64) -> (mask: u64)
    requires
        p + lanes * t.width() <= buf@.len(),
        1 <= stride <= 8,
        lanes * stride <= 32,
    ensures
        mask < (1u64 << (lanes * stride) as u64),
        forall|m: nat, b: nat|
            m < lanes && b < stride ==> (#[trigger] bit_set(mask, m * stride + b) <==> lane_hit_at(t, order, q, buf@, p as nat, m)),
{
    let n = buf.len();
    let w = t.size();
    let mut mask: u64 = 0;
    let mut k: usize = 0;
    assert(0u64 < (1u64 << 0u64)) by (bit_vector);
    while k < lanes
        invariant
            n == buf@.len(),
            w == t.width(),
            1 <= w <= 8,
            p + lanes * w <= buf@.len(),
            1 <= stride <= 8,
            lanes * stride <= 32,
            k <= lanes,
            mask < (1u64 << (k * stride) as u64),
            forall|m: nat, b: nat|
                m < k && b < stride ==> (#[trigger] bit_set(mask, m * stride + b) <==> lane_hit_at(t, order, q, buf@, p as nat, m)),
        decreases lanes - k,
    {
        assert(k * stride + stride <= lanes * stride) by (nonlinear_arith)
            requires
                k < lanes,
        ;
        assert(p + k * w + w <= p + lanes * w) by (nonlinear_arith)
            requires
                k < lanes,
        ;
        let pos: u64 = k as u64 * stride;
        let o = p + k * w;
        let h = lane_hits(t, q, read_lane(t, order, buf, o));
        let old_mask = mask;
        if h {
            mask = mask | (!(0xffff_ffff_ffff_ffffu64 << stride) << pos);
        }
        proof {
            lemma_or_run(old_mask, pos, stride, (pos + stride) as u64, 0);
            assert((k + 1) * stride == k * stride + stride) by (nonlinear_arith);
            assert forall|m: nat, b: nat|
                m < k + 1 && b < stride implies (#[trigger] bit_set(mask, m * stride + b) <==> lane_hit_at(t, order, q, buf@, p as nat, m)) by {
                let j = m * stride + b;
                assert(j < 64) by (nonlinear_arith)
                    requires
                        m < k + 1,
                        b < stride,
                        j == m * stride + b,
                        k * stride + stride <= 32,
                ;
                lemma_or_run(old_mask, pos, stride, (pos + stride) as u64, j as u64);
                if m < k {
                    assert(j < pos) by (nonlinear_arith)
                        requires
                            m < k,
                            b < stride,
                            pos == k * stride,
                            j == m * stride + b,
                    ;
                    assert(bit_set(old_mask, m * stride + b) <==> lane_hit_at(t, order, q, buf@, p as nat, m));
                } else {
                    assert(m == k);
                    lemma_high_bits_clear(old_mask, pos, j as u64);
                }
            }
        }
        k = k + 1;
    }
    mask
}

/// Checks one block: either the first lane that satisfies the query, or the
/// knowledge that the scan may resume after the block.
fn block_first(t: DataType, order: ByteOrder, q: Query, buf: &[u8], p: usize, lanes: usize, stride: u64) -> (r: Option<usize>)
    requires
        p + lanes * t.width() <= buf@.len(),
        1 <= stride <= 8,
        lanes * stride <= 32,
    ensures
        r is Some ==> as_offset(r) == scan_from(t, order, q, buf@, p as nat),
        r is None ==> scan_from(t, order, q, buf@, p as nat) == scan_from(t, order, q, buf@, (p + lanes * t.width()) as nat),
{
    let n = buf.len();
    let w = t.size();
    let mask = block_mask(t, order, q, buf, p, lanes, stride);
    if mask == 0 {
        proof {
            assert forall|m: nat| m < lanes implies !#[trigger] lane_hit_at(t, order, q, buf@, p as nat, m) by {
                assert(m * stride + 0 < 64) by (nonlinear_arith)
                    requires
                        m < lanes,
                        lanes * stride <= 32,
                ;
                lemma_zero_bits((m * stride) as u64);
                assert(!bit_set(mask, m * stride + 0));
            }
            lemma_scan_skip(t, order, q, buf@, p as nat, lanes as nat);
        }
        None
    } else {
        let tz = mask.trailing_zeros();
        proof {
            vstd::std_specs::bits::axiom_u64_trailing_zeros(mask);
        }
        let tz64 = tz as u64;
        assert(tz64 < (lanes * stride) as u64) by {
            if tz64 >= (lanes * stride) as u64 {
                lemma_high_bits_clear(mask, (lanes * stride) as u64, tz64);
            }
        }
        let idx = tz64 / stride;
        let b = tz64 % stride;
        proof {
            vstd::arithmetic::div_mod::lemma_fundamental_div_mod(tz64 as int, stride as int);
            assert(idx < lanes) by (nonlinear_arith)
                requires
                    tz64 == stride * idx + b,
                    b >= 0,
                    tz64 < lanes * stride,
                    stride >= 1,
            ;
            assert(idx * stride + b == tz64) by (nonlinear_arith)
                requires
                    tz64 == stride * idx + b,
            ;
            assert(bit_set(mask, tz64 as int));
            assert(bit_set(mask, idx * stride + b));
            assert forall|m: nat| m < idx implies !#[trigger] lane_hit_at(t, order, q, buf@, p as nat, m) by {
                assert(m * stride + 0 < tz64) by (nonlinear_arith)
                    requires
                        m < idx,
                        tz64 == stride * idx + b,
                        b >= 0,
                        stride >= 1,
                ;
                assert(!bit_set(mask, m * stride + 0));
            }
            lemma_scan_skip(t, order, q, buf@, p as nat, idx as nat);
            assert(p + idx * w + w <= p + lanes * w) by (nonlinear_arith)
                requires
                    idx < lanes,
            ;
        }
        let o = p + idx as usize * w;
        Some(o)
    }
}

/// A block backend with registers of `reg` bytes (16 or 32), scanning the lanes
/// at `start`, `start + width`, ...
pub fn find_blocks(t: DataType, order: ByteOrder, q: Query, buf: &[u8], start: usize, reg: usize) -> (r: Option<usize>)
    requires
        reg == 16 || reg == 32,
    ensures
        as_offset(r) == scan_from(t, order, q, buf@, start as nat),
{
    let n = buf.len();
    let w = t.size();
    let lanes: usize = match t {
        DataType::U8 => reg,
        DataType::U16 => reg / 2,
        DataType::U32 | DataType::F32 => reg / 4,
        DataType::U64 | DataType::F64 => reg / 8,
    };
    let stride: u64 = if t.is_float_type() { 1 } else { w as u64 };
    assert(lanes * w == reg);
    assert(lanes * stride <= 32);
    let mut p: usize = start;
    // Groups of six blocks under one bounds check, then single blocks.
    while p <= n && 6 * reg <= n - p
        invariant
            n == buf@.len(),
            w == t.width(),
            lanes * w == reg,
            reg == 16 || reg == 32,
            1 <= stride <= 8,
            lanes * stride <= 32,
            scan_from(t, order, q, buf@, start as nat) == scan_from(t, order, q, buf@, p as nat),
        decreases n - p,
    {
        let mut u: usize = 0;
        let ghost p0 = p;
        while u < 6
            invariant
                p == p0 + u * reg,
                n == buf@.len(),
                w == t.width(),
                lanes * w == reg,
                reg == 16 || reg == 32,
                1 <= stride <= 8,
                lanes * stride <= 32,
                u <= 6,
                p + (6 - u) * reg <= n,
                scan_from(t, order, q, buf@, start as nat) == scan_from(t, order, q, buf@, p as nat),
            decreases 6 - u,
        {
            if let Some(o) = block_first(t, order, q, buf, p, lanes, stride) {
                return Some(o);
            }
            p = p + reg;
            u = u + 1;
        }
    }
    while p <= n && reg <= n - p
        invariant
            n == buf@.len(),
            w == t.width(),
            lanes * w == reg,
            reg == 16 || reg == 32,
            1 <= stride <= 8,
            lanes * stride <= 32,
            scan_from(t, order, q, buf@, start as nat) == scan_from(t, order, q, buf@, p as nat),
        decreases n - p,
    {
        if let Some(o) = block_first(t, order, q, buf, p, lanes, stride) {
            return Some(o);
        }
        p = p + reg;
    }
    scan_scalar_from(t, order, q, buf, p)
}

/// The backends, widest first.
#[derive(Debug, PartialEq, Eq, Structural, Clone, Copy)]
pub enum Backend {
    /// Blocks of 256 bits.
    Wide256,
    /// Blocks of 128 bits.
    Wide128,
    /// One lane at a time.
    Scalar,
}

/// Relies on `core_detect::is_x86_feature_detected!("avx2")`, written as the call
/// the macro expands to; core_detect probes the CPU once and caches the answer.
#[verifier::external_body]
fn cpu_has_avx2() -> (r: bool) {
    core_detect::__is_feature_detected::avx2()
}

/// Relies on `core_detect::is_x86_feature_detected!("sse4.2")`, written as the call
/// the macro expands to; core_detect probes the CPU once and caches the answer.
#[verifier::external_body]
fn cpu_has_sse42() -> (r: bool) {
    core_detect::__is_feature_detected::sse4_2()
}

impl Backend {
    /// The widest backend that the given CPU features allow.
    pub fn select(has_256: bool, has_128: bool) -> (r: Backend)
        ensures
            r == (if has_256 { Backend::Wide256 } else if has_128 { Backend::Wide128 } else { Backend::Scalar }),
    {
        if has_256 {
            Backend::Wide256
        } else if has_128 {
            Backend::Wide128
        } else {
            Backend::Scalar
        }
    }

    /// The widest backend of this CPU.
    pub fn detect() -> Backend {
        Backend::select(cpu_has_avx2(), cpu_has_sse42())
    }

    /// The smallest aligned offset whose lane satisfies the query; every backend
    /// gives the same answer.
    pub fn find(self, t: DataType, order: ByteOrder, q: Query, buf: &[u8]) -> (r: Option<usize>)
        ensures
            as_offset(r) == first_match(t, order, q, buf@),
    {
        match self {
            Backend::Wide256 => find_blocks(t, order, q, buf, 0, 32),
            Backend::Wide128 => find_blocks(t, order, q, buf, 0, 16),
            Backend::Scalar => find_scalar(t, order, q, buf),
        }
    }

    /// The first lane at `start`, `start + width`, ... that satisfies the query.
    pub fn find_from(self, t: DataType, order: ByteOrder, q: Query, buf: &[u8], start: usize) -> (r: Option<usize>)
        ensures
            as_offset(r) == scan_from(t, order, q, buf@, start as nat),
    {
        match self {
            Backend::Wide256 => find_blocks(t, order, q, buf, start, 32),
            Backend::Wide128 => find_blocks(t, order, q, buf, start, 16),
            Backend::Scalar => scan_scalar_from(t, order, q, buf, start),
        }
    }
}

/// Searches in the host's byte order with the widest backend of this CPU.
pub fn find_native(t: DataType, q: Query, buf: &[u8]) -> (r: Option<usize>)
    ensures
        exists|o: ByteOrder| as_offset(r) == #[trigger] first_match(t, o, q, buf@),
{
    let order = ByteOrder::native();
    let r = Backend::detect().find(t, order, q, buf);
    assert(as_offset(r) == first_match(t, order, q, buf@));
    r
}

} // verus!
