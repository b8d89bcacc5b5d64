//! Typed values: parsing, formatting, reading from bytes and comparing with bytes.
use vstd::prelude::*;
use crate::data_types::{bytes_value, lemma_bytes_value_bound, lemma_width_modulus, read_unsigned, ByteOrder, DataType, Endianness};
use crate::error::AppError;
use crate::lanes::{lemma_matches_from_scan, lemma_scan_from, matches_from, Query};
use crate::scan::Backend;

verus! {

/// A value of one of the six scalar types. Floats are held as their IEEE-754 bit
/// patterns, so two float values are equal when their bits are.
#[derive(Debug, PartialEq, Eq, Structural, Clone, Copy)]
pub enum WrappedValue {
    U8(u8),
    U16(u16),
    U32(u32),
    U64(u64),
    F32(u32),
    F64(u64),
}

impl WrappedValue {
    pub open spec fn kind(self) -> DataType {
        match self {
            WrappedValue::U8(_) => DataType::U8,
            WrappedValue::U16(_) => DataType::U16,
            WrappedValue::U32(_) => DataType::U32,
            WrappedValue::U64(_) => DataType::U64,
            WrappedValue::F32(_) => DataType::F32,
            WrappedValue::F64(_) => DataType::F64,
        }
    }

    /// The value's bit pattern as a number.
    pub open spec fn raw(self) -> nat {
        match self {
            WrappedValue::U8(v) => v as nat,
            WrappedValue::U16(v) => v as nat,
            WrappedValue::U32(v) => v as nat,
            WrappedValue::U64(v) => v as nat,
            WrappedValue::F32(v) => v as nat,
            WrappedValue::F64(v) => v as nat,
        }
    }

    /// Whether the leading bytes of `s`, read in `order`, hold exactly this value.
    pub open spec fn stored_in(self, s: Seq<u8>, order: ByteOrder) -> bool {
        s.len() >= self.kind().width() && bytes_value(order, s.subrange(0, self.kind().width() as int)) == self.raw()
    }

    pub fn data_type(self) -> (r: DataType)
        ensures
            r == self.kind(),
    {
        match self {
            WrappedValue::U8(_) => DataType::U8,
            WrappedValue::U16(_) => DataType::U16,
            WrappedValue::U32(_) => DataType::U32,
            WrappedValue::U64(_) => DataType::U64,
            WrappedValue::F32(_) => DataType::F32,
            WrappedValue::F64(_) => DataType::F64,
        }
    }

    /// The value's bit pattern.
    pub fn bits(self) -> (r: u64)
        ensures
            r == self.raw(),
    {
        match self {
            WrappedValue::U8(v) => v as u64,
            WrappedValue::U16(v) => v as u64,
            WrappedValue::U32(v) => v as u64,
            WrappedValue::U64(v) => v,
            WrappedValue::F32(v) => v as u64,
            WrappedValue::F64(v) => v,
        }
    }

    /// The value of type `t` with the given bit pattern.
    pub fn from_bits(t: DataType, bits: u64) -> (r: WrappedValue)
        requires
            bits < t.modulus(),
        ensures
            r.kind() == t,
            r.raw() == bits,
    {
        match t {
            DataType::U8 => WrappedValue::U8(bits as u8),
            DataType::U16 => WrappedValue::U16(bits as u16),
            DataType::U32 => WrappedValue::U32(bits as u32),
            DataType::U64 => WrappedValue::U64(bits),
            DataType::F32 => WrappedValue::F32(bits as u32),
            DataType::F64 => WrappedValue::F64(bits),
        }
    }

    /// Bit-exact comparison of the value, encoded in `order`, with the leading bytes
    /// of `buffer`. A buffer shorter than the value never matches.
    pub fn compare_in(self, buffer: &[u8], order: ByteOrder) -> (r: bool)
        ensures
            r == self.stored_in(buffer@, order),
    {
        let w = self.data_type().size();
        proof {
            lemma_width_modulus(self.kind());
        }
        if buffer.len() < w {
            false
        } else {
            read_unsigned(buffer, 0, w, order) == self.bits()
        }
    }

    /// Bit-exact comparison of the value, encoded as `endianness` says, with the
    /// leading bytes of `buffer`.
    pub fn compare_to(self, buffer: &[u8], endianness: Endianness) -> (r: bool)
        ensures
            endianness.fixed() is Some ==> r == self.stored_in(buffer@, endianness.fixed()->0),
            exists|o: ByteOrder| r == #[trigger] self.stored_in(buffer@, o),
    {
        let order = endianness.resolve();
        let r = self.compare_in(buffer, order);
        assert(r == self.stored_in(buffer@, order));
        r
    }
}

impl DataType {
    /// Reads a value of this type from the leading bytes of `buffer` in `order`.
    pub fn cast_in(self, buffer: &[u8], order: ByteOrder) -> (r: Result<WrappedValue, AppError>)
        ensures
            buffer@.len() < self.width() ==> r matches Err(AppError::BufferTooSmall),
            buffer@.len() >= self.width() ==> (r matches Ok(v) && v.kind() == self && v.stored_in(buffer@, order)),
    {
        let w = self.size();
        proof {
            lemma_width_modulus(self);
        }
        if buffer.len() < w {
            return Err(AppError::BufferTooSmall);
        }
        let bits = read_unsigned(buffer, 0, w, order);
        proof {
            lemma_bytes_value_bound(order, buffer@.subrange(0, w as int));
        }
        Ok(WrappedValue::from_bits(self, bits))
    }

    /// Reads a value of this type from the leading bytes of `buffer`, in the byte
    /// order `endianness` names.
    pub fn cast(self, buffer: &[u8], endianness: Endianness) -> (r: Result<WrappedValue, AppError>)
        ensures
            buffer@.len() < self.width() ==> r matches Err(AppError::BufferTooSmall),
            buffer@.len() >= self.width() && endianness.fixed() is Some ==> (r matches Ok(v) && v.kind() == self
                && v.stored_in(buffer@, endianness.fixed()->0)),
            buffer@.len() >= self.width() ==> (r matches Ok(v) && v.kind() == self
                && exists|o: ByteOrder| #[trigger] v.stored_in(buffer@, o)),
    {
        let order = endianness.resolve();
        let r = self.cast_in(buffer, order);
        proof {
            if let Ok(v) = r {
                assert(v.stored_in(buffer@, order));
            }
        }
        r
    }
}

/// Whether `c` is an ASCII decimal digit.
pub open spec fn is_digit(c: char) -> bool {
    48 <= (c as u32) <= 57
}

pub open spec fn digit_value(c: char) -> nat {
    ((c as u32) - 48) as nat
}

/// The character of the decimal digit `d`.
pub open spec fn digit_char(d: nat) -> char {
    ((d + 48) as u32) as char
}

/// The number written by a string of decimal digits.
pub open spec fn digits_value(s: Seq<char>) -> nat
    decreases s.len(),
{
    if s.len() == 0 {
        0
    } else {
        digits_value(s.drop_last()) * 10 + digit_value(s.last())
    }
}

/// The number an unsigned decimal text names: an optional `+` and at least one
/// digit, nothing else.
pub open spec fn decimal_number(s: Seq<char>) -> Option<nat> {
    let d = if s.len() > 0 && s[0] == '+' { s.drop_first() } else { s };
    if d.len() > 0 && forall|i: int| 0 <= i < d.len() ==> #[trigger] is_digit(d[i]) {
        Some(digits_value(d))
    } else {
        None
    }
}

/// The decimal digits of `n`, without sign or leading zeros.
pub open spec fn decimal_of(n: nat) -> Seq<char>
    decreases n,
{
    if n < 10 {
        seq![digit_char(n)]
    } else {
        decimal_of(n / 10).push(digit_char(n % 10))
    }
}

/// The value of type `t` whose bit pattern is `n`.
pub open spec fn value_of(t: DataType, n: nat) -> WrappedValue {
    match t {
        DataType::U8 => WrappedValue::U8(n as u8),
        DataType::U16 => WrappedValue::U16(n as u16),
        DataType::U32 => WrappedValue::U32(n as u32),
        DataType::U64 => WrappedValue::U64(n as u64),
        DataType::F32 => WrappedValue::F32(n as u32),
        DataType::F64 => WrappedValue::F64(n as u64),
    }
}

/// What parsing `s` as an integer type `t` gives.
pub open spec fn parsed(t: DataType, s: Seq<char>) -> Option<WrappedValue> {
    match decimal_number(s) {
        Some(n) => if n < t.modulus() { Some(value_of(t, n)) } else { None },
        None => None,
    }
}

#[verifier::external_type_specification]
#[verifier::external_body]
pub struct ExParseIntError(core::num::ParseIntError);

/// Relies on `u64::from_str` (`str::parse::<u64>`): it accepts exactly an optional
/// `+` followed by decimal digits whose value fits in a `u64`.
#[verifier::external_body]
fn parse_u64(s: &str) -> (r: Result<u64, core::num::ParseIntError>)
    ensures
        r is Ok <==> (decimal_number(s@) is Some && decimal_number(s@)->0 <= u64::MAX),
        r is Ok ==> r->Ok_0 == decimal_number(s@)->0,
{
    s.parse::<u64>()
}

/// Relies on the `Display` of `ParseIntError`: a message that says what was wrong.
#[verifier::external_body]
fn parse_error_message(e: &core::num::ParseIntError) -> (r: String) {
    e.to_string()
}

/// Relies on `u64::to_string`: the decimal digits of the value, without sign or
/// leading zeros.
#[verifier::external_body]
fn decimal_string(v: u64) -> (r: String)
    ensures
        r@ == decimal_of(v as nat),
{
    v.to_string()
}

impl DataType {
    /// Parses decimal text as a value of this integer type. Float text is read as
    /// IEEE-754 by the caller, which builds `F32`/`F64` from the bits.
    pub fn parse(self, label: &str) -> (r: Result<WrappedValue, AppError>)
        requires
            !self.is_float(),
        ensures
            r is Ok <==> parsed(self, label@) is Some,
            r is Ok ==> r->Ok_0 == parsed(self, label@)->0,
            r is Err ==> r->Err_0 is DataTypeParseError,
    {
        match parse_u64(label) {
            Ok(n) => {
                let t = self;
                proof {
                    lemma_width_modulus(t);
                }
                let fits = match t {
                    DataType::U8 => n <= 0xff,
                    DataType::U16 => n <= 0xffff,
                    DataType::U32 => n <= 0xffff_ffff,
                    _ => true,
                };
                if fits {
                    Ok(WrappedValue::from_bits(t, n))
                } else {
                    Err(AppError::DataTypeParseError("number too large to fit in target type".to_owned()))
                }
            },
            Err(e) => Err(AppError::DataTypeParseError(parse_error_message(&e))),
        }
    }
}

impl WrappedValue {
    /// The decimal text of an integer value.
    pub fn to_text(self) -> (r: String)
        requires
            !self.kind().is_float(),
        ensures
            r@ == decimal_of(self.raw()),
    {
        decimal_string(self.bits())
    }
}

proof fn lemma_digit_char(d: nat)
    requires
        d < 10,
    ensures
        digit_char(d) as u32 == d + 48,
        is_digit(digit_char(d)),
        digit_value(digit_char(d)) == d,
{
    assert((((d + 48) as u32) as char) as u32 == d + 48);
}

proof fn lemma_decimal_of(n: nat)
    ensures
        decimal_of(n).len() > 0,
        forall|i: int| 0 <= i < decimal_of(n).len() ==> #[trigger] is_digit(decimal_of(n)[i]),
        digits_value(decimal_of(n)) == n,
    decreases n,
{
    if n < 10 {
        lemma_digit_char(n);
        let s = decimal_of(n);
        assert(s.drop_last() =~= Seq::<char>::empty());
        assert(digits_value(s.drop_last()) == 0);
        assert(s.last() == digit_char(n));
    } else {
        lemma_digit_char(n % 10);
        lemma_decimal_of(n / 10);
        let s = decimal_of(n);
        assert(s.drop_last() =~= decimal_of(n / 10));
        assert(s.last() == digit_char(n % 10));
        assert(digits_value(s) == digits_value(decimal_of(n / 10)) * 10 + digit_value(digit_char(n % 10)));
        assert(n == (n / 10) * 10 + n % 10);
    }
}

/// Formatting an integer value and parsing the text as the same type gives the
/// value back.
pub proof fn lemma_parse_format_round_trip(v: WrappedValue)
    requires
        !v.kind().is_float(),
    ensures
        parsed(v.kind(), decimal_of(v.raw())) == Some(v),
{
    let s = decimal_of(v.raw());
    lemma_decimal_of(v.raw());
    assert(is_digit(s[0]));
    assert(('+' as u32) == 43);
    assert(s[0] != '+');
    assert(decimal_number(s) == Some(v.raw()));
}

/// Offsets as executable indices.
pub open spec fn as_indices(m: Seq<nat>) -> Seq<usize> {
    Seq::new(m.len(), |i: int| m[i] as usize)
}

impl WrappedValue {
    /// Every aligned offset of `buffer` whose lane, read in `order`, equals the value,
    /// in ascending order.
    pub open spec fn occurrences(self, buffer: Seq<u8>, order: ByteOrder) -> Seq<usize> {
        as_indices(matches_from(self.kind(), order, Query::Equal(self.raw() as u64), buffer, 0))
    }

    /// Every aligned offset of `buffer` whose lane equals the value, read in `order`.
    pub fn scan_in(self, buffer: &[u8], order: ByteOrder) -> (r: Vec<usize>)
        ensures
            r@ == self.occurrences(buffer@, order),
    {
        let backend = Backend::detect();
        let t = self.data_type();
        let q = Query::Equal(self.bits());
        let w = t.size();
        let n = buffer.len();
        let ghost all = matches_from(t, order, q, buffer@, 0);
        let mut out: Vec<usize> = Vec::new();
        let mut start: usize = 0;
        while start < n
            invariant
                n == buffer@.len(),
                w == t.width(),
                t == self.kind(),
                q == Query::Equal(self.raw() as u64),
                as_indices(all) == out@ + as_indices(matches_from(t, order, q, buffer@, start as nat)),
            decreases n - start,
        {
            let found = backend.find_from(t, order, q, buffer, start);
            proof {
                lemma_scan_from(t, order, q, buffer@, start as nat);
                lemma_matches_from_scan(t, order, q, buffer@, start as nat);
            }
            match found {
                Some(x) => {
                    let ghost rest = matches_from(t, order, q, buffer@, (x + w) as nat);
                    assert(as_indices(seq![x as nat] + rest) =~= seq![x] + as_indices(rest));
                    out.push(x);
                    assert(out@ + as_indices(rest) =~= as_indices(all));
                    start = x + w;
                },
                None => {
                    assert(as_indices(Seq::<nat>::empty()) =~= Seq::<usize>::empty());
                    assert(out@ + Seq::<usize>::empty() =~= out@);
                    start = n;
                },
            }
        }
        assert(matches_from(t, order, q, buffer@, start as nat) =~= Seq::<nat>::empty());
        assert(as_indices(Seq::<nat>::empty()) =~= Seq::<usize>::empty());
        assert(out@ + Seq::<usize>::empty() =~= out@);
        out
    }

    /// Every aligned offset of `buffer` whose lane equals the value, in the byte order
    /// `endianness` names.
    pub fn scan_memory(self, buffer: &[u8], endianness: Endianness) -> (r: Vec<usize>)
        ensures
            endianness.fixed() is Some ==> r@ == self.occurrences(buffer@, endianness.fixed()->0),
            exists|o: ByteOrder| r@ == #[trigger] self.occurrences(buffer@, o),
    {
        let order = endianness.resolve();
        let r = self.scan_in(buffer, order);
        assert(r@ == self.occurrences(buffer@, order));
        r
    }
}

} // verus!
