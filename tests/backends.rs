use memscan::data_types::{ByteOrder, DataType, Endianness};
use memscan::lanes::{find_scalar, Query};
use memscan::scan::Backend;

struct Lcg(u64);

impl Lcg {
    fn next(&mut self) -> u64 {
        self.0 = self.0.wrapping_mul(6364136223846793005).wrapping_add(1442695040888963407);
        self.0 >> 33
    }
}

fn types() -> Vec<DataType> {
    vec![DataType::U8, DataType::U16, DataType::U32, DataType::U64, DataType::F32, DataType::F64]
}

fn reference(t: DataType, order: ByteOrder, q: Query, buf: &[u8]) -> Option<usize> {
    let w = t.size();
    let mut o = 0;
    while o + w <= buf.len() {
        let mut bytes = [0u8; 8];
        bytes[..w].copy_from_slice(&buf[o..o + w]);
        let x = match order {
            ByteOrder::Little => u64::from_le_bytes(bytes),
            ByteOrder::Big => {
                let mut v = 0u64;
                for b in &buf[o..o + w] {
                    v = (v << 8) | *b as u64;
                }
                v
            },
        };
        let hit = match (t, q) {
            (DataType::F32, Query::Equal(n)) => f32::from_bits(x as u32) == f32::from_bits(n as u32),
            (DataType::F32, Query::Inclusive(lo, hi)) => {
                let v = f32::from_bits(x as u32);
                v >= f32::from_bits(lo as u32) && v <= f32::from_bits(hi as u32)
            },
            (DataType::F32, Query::Exclusive(lo, hi)) => {
                let v = f32::from_bits(x as u32);
                v > f32::from_bits(lo as u32) && v < f32::from_bits(hi as u32)
            },
            (DataType::F64, Query::Equal(n)) => f64::from_bits(x) == f64::from_bits(n),
            (DataType::F64, Query::Inclusive(lo, hi)) => {
                let v = f64::from_bits(x);
                v >= f64::from_bits(lo) && v <= f64::from_bits(hi)
            },
            (DataType::F64, Query::Exclusive(lo, hi)) => {
                let v = f64::from_bits(x);
                v > f64::from_bits(lo) && v < f64::from_bits(hi)
            },
            (_, Query::Equal(n)) => x == n,
            (_, Query::Inclusive(lo, hi)) => x >= lo && x <= hi,
            (_, Query::Exclusive(lo, hi)) => x > lo && x < hi,
        };
        if hit {
            return Some(o);
        }
        o += w;
    }
    None
}

fn lane(rng: &mut Lcg, t: DataType) -> u64 {
    // Few distinct byte values, so that matches and ranges occur.
    let mut v = 0u64;
    for _ in 0..t.size() {
        v = (v << 8) | (rng.next() % 4) as u64;
    }
    v
}

#[test]
fn backends_agree_on_random_buffers() {
    let mut rng = Lcg(7);
    for len in 0..420usize {
        let buf: Vec<u8> = (0..len).map(|_| (rng.next() % 4) as u8).collect();
        for t in types() {
            for order in [ByteOrder::Little, ByteOrder::Big] {
                let a = lane(&mut rng, t);
                let b = lane(&mut rng, t);
                let (lo, hi) = if a <= b { (a, b) } else { (b, a) };
                for q in [Query::Equal(a), Query::Inclusive(lo, hi), Query::Exclusive(lo, hi)] {
                    let expected = reference(t, order, q, &buf);
                    assert_eq!(Backend::Wide256.find(t, order, q, &buf), expected, "{:?} {:?} {:?} {}", t, order, q, len);
                    assert_eq!(Backend::Wide128.find(t, order, q, &buf), expected, "{:?} {:?} {:?} {}", t, order, q, len);
                    assert_eq!(Backend::Scalar.find(t, order, q, &buf), expected, "{:?} {:?} {:?} {}", t, order, q, len);
                    assert_eq!(find_scalar(t, order, q, &buf), expected);
                }
            }
        }
    }
}

#[test]
fn match_in_every_block_position() {
    for t in types() {
        let w = t.size();
        for lanes in [1usize, 7, 24, 25, 48, 97, 200] {
            for at in 0..lanes {
                let mut buf = vec![0u8; lanes * w];
                buf[at * w + w - 1] = 1;
                let q = Query::Equal(1);
                let r = Some(at * w);
                assert_eq!(Backend::Wide256.find(t, ByteOrder::Big, q, &buf), r);
                assert_eq!(Backend::Wide128.find(t, ByteOrder::Big, q, &buf), r);
                assert_eq!(Backend::Scalar.find(t, ByteOrder::Big, q, &buf), r);
            }
        }
    }
}

#[test]
fn find_from_starts_on_the_given_lattice() {
    let buf = [5u8, 5, 5, 5, 5, 5];
    assert_eq!(Backend::Wide256.find_from(DataType::U16, ByteOrder::Little, Query::Equal(0x0505), &buf, 1), Some(1));
    assert_eq!(Backend::Scalar.find_from(DataType::U16, ByteOrder::Little, Query::Equal(0x0505), &buf, 5), None);
}

#[test]
fn backend_selection_prefers_the_widest() {
    assert_eq!(Backend::select(true, true), Backend::Wide256);
    assert_eq!(Backend::select(false, true), Backend::Wide128);
    assert_eq!(Backend::select(false, false), Backend::Scalar);
    let detected = Backend::detect();
    let buf: Vec<u8> = (0..64u8).collect();
    assert_eq!(detected.find(DataType::U8, ByteOrder::Little, Query::Equal(40), &buf), Some(40));
}

#[test]
fn native_order_is_the_host_order() {
    let expected = if u16::from_ne_bytes([1, 0]) == 1 { ByteOrder::Little } else { ByteOrder::Big };
    assert_eq!(ByteOrder::native(), expected);
    assert_eq!(Endianness::Native.resolve(), expected);
    assert_eq!(Endianness::Big.resolve(), ByteOrder::Big);
    assert_eq!(Endianness::Little.resolve(), ByteOrder::Little);
}

#[test]
fn endianness_symmetry() {
    let v: u32 = 0x0102_0304;
    let buf: Vec<u8> = (0..10).flat_map(|_| v.to_le_bytes()).collect();
    assert_eq!(Backend::Scalar.find(DataType::U32, ByteOrder::Little, Query::Equal(v as u64), &buf), Some(0));
    assert_eq!(Backend::Wide256.find(DataType::U32, ByteOrder::Big, Query::Equal(v as u64), &buf), None);
    let p: u16 = 0x0707;
    let buf: Vec<u8> = (0..10).flat_map(|_| p.to_le_bytes()).collect();
    assert_eq!(Backend::Wide128.find(DataType::U16, ByteOrder::Big, Query::Equal(p as u64), &buf), Some(0));
}
