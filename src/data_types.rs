//! The scalar types that can be searched for, and the byte orders they are read in.
use vstd::prelude::*;

verus! {

/// The six scalar types a search can look for.
#[derive(Debug, PartialEq, Eq, Structural, Clone, Copy)]
pub enum DataType {
    U8,
    U16,
    U32,
    U64,
    F32,
    F64,
}

/// The byte order a value is encoded in; `Native` is the order of the host CPU.
#[derive(Debug, PartialEq, Eq, Structural, Clone, Copy)]
pub enum Endianness {
    Little,
    Big,
    Native,
}

/// A concrete byte order, with the host order already resolved.
#[derive(Debug, PartialEq, Eq, Structural, Clone, Copy)]
pub enum ByteOrder {
    Little,
    Big,
}

impl DataType {
    /// Number of bytes of one value of this type.
    pub open spec fn width(self) -> nat {
        match self {
            DataType::U8 => 1,
            DataType::U16 => 2,
            DataType::U32 => 4,
            DataType::U64 => 8,
            DataType::F32 => 4,
            DataType::F64 => 8,
        }
    }

    pub open spec fn is_float(self) -> bool {
        self == DataType::F32 || self == DataType::F64
    }

    /// Number of distinct bit patterns of this type: `2^(8 * width)`.
    pub open spec fn modulus(self) -> nat {
        match self {
            DataType::U8 => 0x100,
            DataType::U16 => 0x1_0000,
            DataType::U32 => 0x1_0000_0000,
            DataType::F32 => 0x1_0000_0000,
            _ => 0x1_0000_0000_0000_0000,
        }
    }

    pub fn size(self) -> (r: usize)
        ensures
            r == self.width(),
    {
        match self {
            DataType::U8 => 1,
            DataType::U16 => 2,
            DataType::U32 => 4,
            DataType::U64 => 8,
            DataType::F32 => 4,
            DataType::F64 => 8,
        }
    }

    pub fn is_float_type(self) -> (r: bool)
        ensures
            r == self.is_float(),
    {
        match self {
            DataType::F32 | DataType::F64 => true,
            _ => false,
        }
    }
}

/// Relies on `u16::from_ne_bytes`: the two bytes read in the host's byte order.
#[verifier::external_body]
fn u16_from_ne_bytes(first: u8, second: u8) -> (r: u16)
    ensures
        r == first + 256 * second || r == 256 * first + second,
{
    u16::from_ne_bytes([first, second])
}

impl ByteOrder {
    /// The byte order of the host CPU.
    pub fn native() -> ByteOrder {
        if u16_from_ne_bytes(1, 0) == 1 {
            ByteOrder::Little
        } else {
            ByteOrder::Big
        }
    }
}

impl Endianness {
    /// The fixed byte order this names, if it names one.
    pub open spec fn fixed(self) -> Option<ByteOrder> {
        match self {
            Endianness::Little => Some(ByteOrder::Little),
            Endianness::Big => Some(ByteOrder::Big),
            Endianness::Native => None,
        }
    }

    /// The byte order meant, with `Native` resolved to the host's.
    pub fn resolve(self) -> (r: ByteOrder)
        ensures
            self.fixed() is Some ==> r == self.fixed()->0,
    {
        match self {
            Endianness::Little => ByteOrder::Little,
            Endianness::Big => ByteOrder::Big,
            Endianness::Native => ByteOrder::native(),
        }
    }
}

impl Default for DataType {
    fn default() -> (r: DataType)
        ensures
            r == DataType::U64,
    {
        DataType::U64
    }
}

impl Default for Endianness {
    fn default() -> (r: Endianness)
        ensures
            r == Endianness::Native,
    {
        Endianness::Native
    }
}

/// Value of bytes read least significant first.
pub open spec fn le_value(s: Seq<u8>) -> nat
    decreases s.len(),
{
    if s.len() == 0 {
        0
    } else {
        s[0] as nat + 256 * le_value(s.drop_first())
    }
}

/// Value of bytes read most significant first.
pub open spec fn be_value(s: Seq<u8>) -> nat
    decreases s.len(),
{
    if s.len() == 0 {
        0
    } else {
        be_value(s.drop_last()) * 256 + s.last() as nat
    }
}

pub open spec fn bytes_value(order: ByteOrder, s: Seq<u8>) -> nat {
    match order {
        ByteOrder::Little => le_value(s),
        ByteOrder::Big => be_value(s),
    }
}

/// `256^n`.
pub open spec fn pow256(n: nat) -> nat
    decreases n,
{
    if n == 0 {
        1
    } else {
        256 * pow256((n - 1) as nat)
    }
}

pub proof fn lemma_le_value_bound(s: Seq<u8>)
    ensures
        le_value(s) < pow256(s.len()),
    decreases s.len(),
{
    if s.len() > 0 {
        lemma_le_value_bound(s.drop_first());
    }
}

pub proof fn lemma_be_value_bound(s: Seq<u8>)
    ensures
        be_value(s) < pow256(s.len()),
    decreases s.len(),
{
    if s.len() > 0 {
        lemma_be_value_bound(s.drop_last());
    }
}

pub proof fn lemma_width_modulus(t: DataType)
    ensures
        pow256(t.width()) == t.modulus(),
        1 <= t.width() <= 8,
{
    reveal_with_fuel(pow256, 9);
}

pub proof fn lemma_bytes_value_bound(order: ByteOrder, s: Seq<u8>)
    ensures
        bytes_value(order, s) < pow256(s.len()),
{
    lemma_le_value_bound(s);
    lemma_be_value_bound(s);
}

/// Reads the `w` bytes at `o` as an unsigned number in the given order.
pub fn read_unsigned(buf: &[u8], o: usize, w: usize, order: ByteOrder) -> (r: u64)
    requires
        1 <= w <= 8,
        o + w <= buf@.len(),
    ensures
        r as nat == bytes_value(order, buf@.subrange(o as int, o + w)),
{
    let n = buf.len();
    let ghost s = buf@.subrange(o as int, o + w);
    proof {
        reveal_with_fuel(pow256, 9);
    }
    match order {
        ByteOrder::Little => {
            let mut v: u64 = 0;
            let mut i: usize = w;
            while i > 0
                invariant
                    1 <= w <= 8,
                    o + w <= buf@.len(),
                    n == buf@.len(),
                    s == buf@.subrange(o as int, o + w),
                    i <= w,
                    v as nat == le_value(s.subrange(i as int, w as int)),
                    pow256(8) == 0x1_0000_0000_0000_0000,
                decreases i,
            {
                let ghost tail = s.subrange(i as int, w as int);
                proof {
                    lemma_le_value_bound(tail);
                    lemma_pow256_mono((w - i) as nat, 7);
                    assert(s.subrange(i - 1, w as int).drop_first() =~= tail);
                }
                v = buf[o + i - 1] as u64 + 256 * v;
                i = i - 1;
            }
            assert(s.subrange(0, w as int) =~= s);
            v
        },
        ByteOrder::Big => {
            let mut v: u64 = 0;
            let mut i: usize = 0;
            while i < w
                invariant
                    1 <= w <= 8,
                    o + w <= buf@.len(),
                    n == buf@.len(),
                    s == buf@.subrange(o as int, o + w),
                    i <= w,
                    v as nat == be_value(s.subrange(0, i as int)),
                    pow256(8) == 0x1_0000_0000_0000_0000,
                decreases w - i,
            {
                let ghost head = s.subrange(0, i as int);
                proof {
                    lemma_be_value_bound(head);
                    lemma_pow256_mono(i as nat, 7);
                    assert(s.subrange(0, i + 1).drop_last() =~= head);
                }
                v = v * 256 + buf[o + i] as u64;
                i = i + 1;
            }
            assert(s.subrange(0, w as int) =~= s);
            v
        },
    }
}

pub proof fn lemma_pow256_mono(a: nat, b: nat)
    requires
        a <= b,
    ensures
        pow256(a) <= pow256(b),
    decreases b,
{
    if a < b {
        lemma_pow256_mono(a, (b - 1) as nat);
    }
}

} // verus!
