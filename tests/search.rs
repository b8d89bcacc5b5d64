use memscan::search::{
    find_first_f32, find_first_f64, find_first_u16, find_first_u32, find_first_u64, find_first_u8, find_exclusive_u8,
    find_exclusive_u16, find_inclusive_f32, find_inclusive_u16, find_inclusive_u8, ExclusiveRangeSearch, F32Bits, F64Bits,
    InclusiveRangeSearch, MemorySearch, Needle,
};
use memscan::primitive::Needle as Portable;

fn u16_bytes(values: &[u16]) -> Vec<u8> {
    values.iter().flat_map(|v| v.to_ne_bytes()).collect()
}

fn u32_bytes(values: &[u32]) -> Vec<u8> {
    values.iter().flat_map(|v| v.to_ne_bytes()).collect()
}

fn u64_bytes(values: &[u64]) -> Vec<u8> {
    values.iter().flat_map(|v| v.to_ne_bytes()).collect()
}

fn f32_bytes(values: &[f32]) -> Vec<u8> {
    values.iter().flat_map(|v| v.to_ne_bytes()).collect()
}

fn f64_bytes(values: &[f64]) -> Vec<u8> {
    values.iter().flat_map(|v| v.to_ne_bytes()).collect()
}

fn f32n(v: f32) -> F32Bits {
    F32Bits(v.to_bits())
}

fn f64n(v: f64) -> F64Bits {
    F64Bits(v.to_bits())
}

#[test]
fn test_exported() {
    let haystack: Vec<u8> = (0..100u8).collect();
    assert_eq!(find_first_u8(0u8, &haystack), Some(0 * 1), "first u8");
    assert_eq!(find_first_u8(50u8, &haystack), Some(50 * 1), "middle u8");
    assert_eq!(find_first_u8(99u8, &haystack), Some(99 * 1), "last u8");

    let haystack = u16_bytes(&(0..100u16).collect::<Vec<_>>());
    assert_eq!(find_first_u16(0u16, &haystack), Some(0 * 2), "first u16");
    assert_eq!(find_first_u16(50u16, &haystack), Some(50 * 2), "middle u16");
    assert_eq!(find_first_u16(99u16, &haystack), Some(99 * 2), "last u16");

    let haystack = u32_bytes(&(0..100u32).collect::<Vec<_>>());
    assert_eq!(find_first_u32(0u32, &haystack), Some(0 * 4));
    assert_eq!(find_first_u32(50u32, &haystack), Some(50 * 4));
    assert_eq!(find_first_u32(99u32, &haystack), Some(99 * 4));

    let haystack = u64_bytes(&(0..100u64).collect::<Vec<_>>());
    assert_eq!(find_first_u64(0u64, &haystack), Some(0 * 8));
    assert_eq!(find_first_u64(50u64, &haystack), Some(50 * 8));
    assert_eq!(find_first_u64(99u64, &haystack), Some(99 * 8));

    let haystack = f32_bytes(&(0..100).map(|i| i as f32).collect::<Vec<_>>());
    assert_eq!(find_first_f32(f32n(0.0), &haystack), Some(0 * 4));
    assert_eq!(find_first_f32(f32n(50.0), &haystack), Some(50 * 4));
    assert_eq!(find_first_f32(f32n(99.0), &haystack), Some(99 * 4));
    assert_eq!(find_first_f32(f32n(f32::NAN), &haystack), None);

    let haystack = f64_bytes(&(0..100).map(|i| i as f64).collect::<Vec<_>>());
    assert_eq!(find_first_f64(f64n(0.0), &haystack), Some(0 * 8));
    assert_eq!(find_first_f64(f64n(50.0), &haystack), Some(50 * 8));
    assert_eq!(find_first_f64(f64n(99.0), &haystack), Some(99 * 8));
    assert_eq!(find_first_f64(f64n(f64::NAN), &haystack), None);
}

fn check_iter<T: Needle>(one: T, thirty: T, forty: T, ones: &[u8], ramp: &[u8], width: usize) {
    let mut iter = MemorySearch::new(one, ones);
    assert_eq!(iter.next(), Some(0 * width));
    assert_eq!(iter.next(), Some(13 * width));
    assert_eq!(iter.next(), Some(25 * width));
    assert_eq!(iter.next(), Some(50 * width));
    assert_eq!(iter.next(), Some(99 * width));
    assert_eq!(iter.next(), None);

    let mut iter = InclusiveRangeSearch::new(thirty, forty, ramp);
    for i in 30..=40 {
        assert_eq!(iter.next(), Some(i * width));
    }
    assert_eq!(iter.next(), None);

    let mut iter = ExclusiveRangeSearch::new(thirty, forty, ramp);
    for i in 31..40 {
        assert_eq!(iter.next(), Some(i * width));
    }
    assert_eq!(iter.next(), None);
}

fn marked() -> Vec<usize> {
    vec![0, 13, 25, 50, 99]
}

#[test]
fn test_iter() {
    let mut ones = [0u8; 100];
    for i in marked() {
        ones[i] = 1;
    }
    let ramp: Vec<u8> = (0..100u8).collect();
    check_iter(1u8, 30u8, 40u8, &ones, &ramp, 1);

    let mut ones = [0u16; 100];
    for i in marked() {
        ones[i] = 1;
    }
    let ramp: Vec<u16> = (0..100u16).collect();
    check_iter(1u16, 30u16, 40u16, &u16_bytes(&ones), &u16_bytes(&ramp), 2);

    let mut ones = [0u32; 100];
    for i in marked() {
        ones[i] = 1;
    }
    let ramp: Vec<u32> = (0..100u32).collect();
    check_iter(1u32, 30u32, 40u32, &u32_bytes(&ones), &u32_bytes(&ramp), 4);

    let mut ones = [0u64; 100];
    for i in marked() {
        ones[i] = 1;
    }
    let ramp: Vec<u64> = (0..100u64).collect();
    check_iter(1u64, 30u64, 40u64, &u64_bytes(&ones), &u64_bytes(&ramp), 8);

    let mut ones = [0f32; 100];
    for i in marked() {
        ones[i] = 1.0;
    }
    let ramp: Vec<f32> = (0..100).map(|i| i as f32).collect();
    check_iter(f32n(1.0), f32n(30.0), f32n(40.0), &f32_bytes(&ones), &f32_bytes(&ramp), 4);

    let mut ones = [0f64; 100];
    for i in marked() {
        ones[i] = 1.0;
    }
    let ramp: Vec<f64> = (0..100).map(|i| i as f64).collect();
    check_iter(f64n(1.0), f64n(30.0), f64n(40.0), &f64_bytes(&ones), &f64_bytes(&ramp), 8);
}

#[test]
fn u8_ramp_scenario() {
    let haystack: Vec<u8> = (0..100u8).collect();
    assert_eq!(find_first_u8(50, &haystack), Some(50));
    assert_eq!(find_first_u8(0, &haystack), Some(0));
    assert_eq!(find_first_u8(99, &haystack), Some(99));
    assert_eq!(find_inclusive_u8(10, 20, &haystack), Some(10));
    assert_eq!(find_exclusive_u8(10, 20, &haystack), Some(11));
}

#[test]
fn u32_ramp_scenario() {
    let haystack = u32_bytes(&(0..100u32).collect::<Vec<_>>());
    assert_eq!(find_first_u32(50, &haystack), Some(200));
    assert_eq!(find_first_u32(99, &haystack), Some(396));
}

#[test]
fn f32_ramp_scenario() {
    let haystack = f32_bytes(&(0..100).map(|i| i as f32).collect::<Vec<_>>());
    assert_eq!(find_first_f32(f32n(f32::NAN), &haystack), None);
    assert_eq!(find_inclusive_f32(f32n(10.0), f32n(20.0), &haystack), Some(40));
}

#[test]
fn u16_iterator_scenario() {
    let mut values = [0u16; 100];
    for i in marked() {
        values[i] = 1;
    }
    let haystack = u16_bytes(&values);
    let mut iter = MemorySearch::new(1u16, &haystack);
    let mut found = vec![];
    while let Some(o) = iter.next() {
        found.push(o);
    }
    assert_eq!(found, vec![0, 26, 50, 100, 198]);
    assert_eq!(iter.next(), None);
    assert_eq!(iter.next(), None);
}

#[test]
fn float_zeros_compare_equal() {
    let haystack = f32_bytes(&[1.0, -0.0, 2.0]);
    assert_eq!(find_first_f32(f32n(0.0), &haystack), Some(4));
    let haystack = f64_bytes(&[-5.0, 3.0, -1.5]);
    assert_eq!(<F64Bits as Needle>::find_inclusive_range(f64n(-2.0), f64n(-1.0), &haystack), Some(16));
    assert_eq!(<F64Bits as Needle>::find_exclusive_range(f64n(-5.0), f64n(3.0), &haystack), Some(16));
}

#[test]
fn nan_bounds_match_nothing() {
    let haystack = f32_bytes(&[f32::NAN, 1.0, f32::INFINITY, -3.0]);
    assert_eq!(find_inclusive_f32(f32n(f32::NAN), f32n(10.0), &haystack), None);
    assert_eq!(find_inclusive_f32(f32n(0.0), f32n(f32::NAN), &haystack), None);
    assert_eq!(find_inclusive_f32(f32n(0.0), f32n(f32::INFINITY), &haystack), Some(4));
    assert_eq!(find_first_f32(f32n(f32::INFINITY), &haystack), Some(8));
}

#[test]
fn short_haystacks_find_nothing() {
    assert_eq!(find_first_u64(0, &[0u8; 7]), None);
    assert_eq!(find_first_u16(0, &[]), None);
    assert_eq!(find_first_u32(0, &[0u8; 5]), Some(0));
    assert_eq!(find_inclusive_u16(0, 10, &[0u8; 1]), None);
    assert_eq!(find_exclusive_u16(0, 10, &[1u8, 0, 0]), Some(0));
}

#[test]
fn offsets_stay_on_the_lane_lattice() {
    // The value 0x0101 straddles lanes 0 and 1 at byte 1, which is not a lane.
    let haystack = [0u8, 1, 1, 0];
    assert_eq!(find_first_u16(0x0101, &haystack), None);
}

#[test]
fn portable_backend_struct() {
    let haystack: Vec<u8> = (0..100u8).collect();
    assert_eq!(Portable::find_next(50u8, &haystack), Some(50));
    assert_eq!(Portable::find_inclusive_range(10u8, 20u8, &haystack), Some(10));
    assert_eq!(Portable::find_exclusive_range(10u8, 20u8, &haystack), Some(11));
    let haystack = u64_bytes(&(0..100u64).collect::<Vec<_>>());
    assert_eq!(Portable::find_next(99u64, &haystack), Some(99 * 8));
    let haystack = f32_bytes(&(0..100).map(|i| i as f32).collect::<Vec<_>>());
    assert_eq!(Portable::find_next(f32n(f32::NAN), &haystack), None);
    assert_eq!(Portable::find_inclusive_range(f32n(10.0), f32n(20.0), &haystack), Some(40));
}
